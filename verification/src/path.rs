//! Path containment: [`VaultPath`].
//!
//! A `VaultPath` is relative by construction, normalised to forward slashes,
//! and stricter than either Windows or Linux alone requires, so that a vault
//! behaves identically on both.
use vstd::prelude::*;
use vstd::utf8::*;
use crate::error::{Error, PathProblem};
use crate::text::{chars_of, lemma_after_ascii_boundary, lemma_ascii_boundary, ob, own, sb, slice, string_of};

verus! {

broadcast use vstd::utf8::encode_utf8_valid_utf8;

pub open spec fn is_sep(c: char) -> bool {
    c == '/' || c == '\\'
}

/// The text between separators, as `str::split` on `/` and `\` yields it.
pub open spec fn split_seps(s: Seq<char>) -> Seq<Seq<char>>
    decreases s.len(),
{
    if s.len() == 0 {
        seq![seq![]]
    } else {
        let r = split_seps(s.drop_last());
        if is_sep(s.last()) {
            r.push(seq![])
        } else {
            r.update(r.len() - 1, r.last().push(s.last()))
        }
    }
}

/// Components that are collapsed rather than rejected: `a//b` and `a/./b`.
pub open spec fn is_skipped(c: Seq<char>) -> bool {
    c.len() == 0 || c == seq!['.']
}

/// The Unicode `White_Space` property, which `char::is_whitespace` tests.
pub open spec fn is_white_space(c: char) -> bool {
    ||| ('\u{9}' <= c <= '\u{d}')
    ||| c == ' '
    ||| c == '\u{85}'
    ||| c == '\u{a0}'
    ||| c == '\u{1680}'
    ||| ('\u{2000}' <= c <= '\u{200a}')
    ||| c == '\u{2028}'
    ||| c == '\u{2029}'
    ||| c == '\u{202f}'
    ||| c == '\u{205f}'
    ||| c == '\u{3000}'
}

pub open spec fn all_white_space(c: Seq<char>) -> bool {
    forall|i: int| 0 <= i < c.len() ==> is_white_space(#[trigger] c[i])
}

pub open spec fn ascii_upper(c: char) -> char {
    if 'a' <= c <= 'z' {
        ((c as u32) - 32) as char
    } else {
        c
    }
}

pub open spec fn upper_seq(s: Seq<char>) -> Seq<char> {
    s.map_values(|c: char| ascii_upper(c))
}

/// A name Windows resolves to a device whatever its directory or extension:
/// `CON`, `PRN`, `AUX`, `NUL`, `COM0`-`COM9`, `LPT0`-`LPT9`, in any ASCII case.
pub open spec fn is_reserved_stem(stem: Seq<char>) -> bool {
    let u = upper_seq(stem);
    ||| u == seq!['C', 'O', 'N']
    ||| u == seq!['P', 'R', 'N']
    ||| u == seq!['A', 'U', 'X']
    ||| u == seq!['N', 'U', 'L']
    ||| (u.len() == 4 && ((u[0] == 'C' && u[1] == 'O' && u[2] == 'M') || (u[0] == 'L' && u[1]
        == 'P' && u[2] == 'T')) && '0' <= u[3] <= '9')
}

/// Index of the first `.` in `c`, or its length.
pub open spec fn first_dot(c: Seq<char>) -> int
    decreases c.len(),
{
    if c.len() == 0 {
        0
    } else if c[0] == '.' {
        0
    } else {
        1 + first_dot(c.drop_first())
    }
}

/// The text before the first dot: what Windows matches device names against.
pub open spec fn device_stem(c: Seq<char>) -> Seq<char> {
    c.take(first_dot(c))
}

/// What is wrong with one component that is not skipped.
pub open spec fn component_problem(c: Seq<char>) -> Option<PathProblem> {
    if c == seq!['.', '.'] {
        Some(PathProblem::ParentReference)
    } else if all_white_space(c) {
        Some(PathProblem::WhitespaceComponent)
    } else if c.last() == ' ' || c.last() == '.' {
        Some(PathProblem::TrailingSpaceOrDot)
    } else if is_reserved_stem(device_stem(c)) {
        Some(PathProblem::ReservedName)
    } else {
        None
    }
}

/// The first problem among components, read left to right.
pub open spec fn first_problem(cs: Seq<Seq<char>>) -> Option<PathProblem>
    decreases cs.len(),
{
    if cs.len() == 0 {
        None
    } else {
        match first_problem(cs.drop_last()) {
            Some(p) => Some(p),
            None => if is_skipped(cs.last()) {
                None
            } else {
                component_problem(cs.last())
            },
        }
    }
}

/// The components that survive collapsing.
pub open spec fn kept(cs: Seq<Seq<char>>) -> Seq<Seq<char>>
    decreases cs.len(),
{
    if cs.len() == 0 {
        seq![]
    } else if is_skipped(cs.last()) {
        kept(cs.drop_last())
    } else {
        kept(cs.drop_last()).push(cs.last())
    }
}

/// Components joined with `/`.
pub open spec fn join_slash(cs: Seq<Seq<char>>) -> Seq<char>
    decreases cs.len(),
{
    if cs.len() == 0 {
        seq![]
    } else if cs.len() == 1 {
        cs[0]
    } else {
        join_slash(cs.drop_last()) + seq!['/'] + cs.last()
    }
}

/// Why `s` is not a vault path, checked in the order the checks are made.
pub open spec fn path_problem(s: Seq<char>) -> Option<PathProblem> {
    if s.len() == 0 {
        Some(PathProblem::Empty)
    } else if s.contains('\0') {
        Some(PathProblem::Nul)
    } else if s.contains(':') {
        Some(PathProblem::Colon)
    } else if is_sep(s[0]) {
        Some(PathProblem::Absolute)
    } else {
        match first_problem(split_seps(s)) {
            Some(p) => Some(p),
            None => if kept(split_seps(s)).len() == 0 {
                Some(PathProblem::Root)
            } else {
                None
            },
        }
    }
}

/// The normal form of an accepted path: kept components joined by `/`.
pub open spec fn normalise(s: Seq<char>) -> Seq<char> {
    join_slash(kept(split_seps(s)))
}

proof fn lemma_split_nonempty(s: Seq<char>)
    ensures
        split_seps(s).len() >= 1,
    decreases s.len(),
{
    if s.len() > 0 {
        lemma_split_nonempty(s.drop_last());
    }
}

proof fn lemma_split_prefix(t: Seq<char>, i: int, j: int)
    requires
        0 <= i <= j <= t.len(),
    ensures
        split_seps(t.take(j)).len() >= split_seps(t.take(i)).len(),
        forall|k: int|
            0 <= k < split_seps(t.take(i)).len() - 1 ==> split_seps(t.take(j))[k] == split_seps(
                t.take(i),
            )[k],
    decreases j - i,
{
    lemma_split_nonempty(t.take(i));
    if i < j {
        lemma_split_prefix(t, i, j - 1);
        assert(t.take(j).drop_last() =~= t.take(j - 1));
        lemma_split_nonempty(t.take(j - 1));
    }
}

proof fn lemma_first_problem_prefix(cs: Seq<Seq<char>>, n: int)
    requires
        0 <= n <= cs.len(),
        first_problem(cs.take(n)) is Some,
    ensures
        first_problem(cs) == first_problem(cs.take(n)),
    decreases cs.len(),
{
    if n < cs.len() {
        assert(cs.drop_last().take(n) =~= cs.take(n));
        lemma_first_problem_prefix(cs.drop_last(), n);
    } else {
        assert(cs.take(n) =~= cs);
    }
}

/// `char::is_whitespace`, by the White_Space table.
pub fn is_whitespace(c: char) -> (r: bool)
    ensures
        r == is_white_space(c),
{
    ('\u{9}' <= c && c <= '\u{d}') || c == ' ' || c == '\u{85}' || c == '\u{a0}' || c == '\u{1680}'
        || ('\u{2000}' <= c && c <= '\u{200a}') || c == '\u{2028}' || c == '\u{2029}' || c
        == '\u{202f}' || c == '\u{205f}' || c == '\u{3000}'
}

fn is_letter_ci(c: char, up: char) -> (r: bool)
    requires
        'A' <= up <= 'Z',
    ensures
        r == (ascii_upper(c) == up),
{
    c == up || (c as u32) == (up as u32) + 32
}

fn reserved_stem(c: &Vec<char>, end: usize) -> (r: bool)
    requires
        end <= c.len(),
    ensures
        r == is_reserved_stem(c@.take(end as int)),
{
    let ghost u = upper_seq(c@.take(end as int));
    if end == 3 {
        proof {
            assert(u.len() == 3);
            assert(u[0] == ascii_upper(c@[0]) && u[1] == ascii_upper(c@[1]) && u[2] == ascii_upper(c@[2]));
        }
        let r = (is_letter_ci(c[0], 'C') && is_letter_ci(c[1], 'O') && is_letter_ci(c[2], 'N'))
            || (is_letter_ci(c[0], 'P') && is_letter_ci(c[1], 'R') && is_letter_ci(c[2], 'N'))
            || (is_letter_ci(c[0], 'A') && is_letter_ci(c[1], 'U') && is_letter_ci(c[2], 'X'))
            || (is_letter_ci(c[0], 'N') && is_letter_ci(c[1], 'U') && is_letter_ci(c[2], 'L'));
        proof {
            if r {
                assert(u =~= seq![u[0], u[1], u[2]]);
            } else {
                if u == seq!['C', 'O', 'N'] || u == seq!['P', 'R', 'N'] || u == seq!['A', 'U', 'X']
                    || u == seq!['N', 'U', 'L'] {
                    assert(u[0] == ascii_upper(c@[0]));
                }
            }
        }
        r
    } else if end == 4 {
        proof {
            assert(u[0] == ascii_upper(c@[0]) && u[1] == ascii_upper(c@[1]) && u[2] == ascii_upper(c@[2]) && u[3] == ascii_upper(c@[3]));
        }
        ((is_letter_ci(c[0], 'C') && is_letter_ci(c[1], 'O') && is_letter_ci(c[2], 'M'))
            || (is_letter_ci(c[0], 'L') && is_letter_ci(c[1], 'P') && is_letter_ci(c[2], 'T')))
            && '0' <= c[3] && c[3] <= '9'
    } else {
        proof {
            assert(u.len() == end);
            if u == seq!['C', 'O', 'N'] || u == seq!['P', 'R', 'N'] || u == seq!['A', 'U', 'X']
                || u == seq!['N', 'U', 'L'] {
                assert(u.len() == 3);
            }
        }
        false
    }
}

proof fn lemma_first_dot(c: Seq<char>, i: int)
    requires
        0 <= i <= c.len(),
        forall|k: int| 0 <= k < i ==> c[k] != '.',
        i == c.len() || c[i] == '.',
    ensures
        first_dot(c) == i,
    decreases c.len(),
{
    if c.len() > 0 && i > 0 {
        lemma_first_dot(c.drop_first(), i - 1);
    }
}

fn check_component(c: &Vec<char>) -> (r: Option<PathProblem>)
    requires
        !is_skipped(c@),
    ensures
        r == component_problem(c@),
{
    if c.len() == 2 && c[0] == '.' && c[1] == '.' {
        assert(c@ == seq!['.', '.']);
        return Some(PathProblem::ParentReference);
    }
    assert(c@ != seq!['.', '.']);
    let mut all_ws = true;
    let mut i: usize = 0;
    while i < c.len()
        invariant
            0 <= i <= c.len(),
            all_ws == (forall|k: int| 0 <= k < i ==> is_white_space(#[trigger] c@[k])),
        decreases c.len() - i,
    {
        if !is_whitespace(c[i]) {
            all_ws = false;
        }
        i = i + 1;
    }
    if all_ws {
        return Some(PathProblem::WhitespaceComponent);
    }
    let last = c[c.len() - 1];
    if last == ' ' || last == '.' {
        return Some(PathProblem::TrailingSpaceOrDot);
    }
    let mut dot: usize = 0;
    while dot < c.len() && c[dot] != '.'
        invariant
            0 <= dot <= c.len(),
            forall|k: int| 0 <= k < dot ==> c@[k] != '.',
        decreases c.len() - dot,
    {
        dot = dot + 1;
    }
    proof {
        lemma_first_dot(c@, dot as int);
    }
    if reserved_stem(c, dot) {
        return Some(PathProblem::ReservedName);
    }
    None
}

/// A path inside a vault: relative, normalised, forward-slashed.
#[derive(Debug, Clone, PartialEq, Eq, Hash, PartialOrd, Ord)]
pub struct VaultPath(String);

impl View for VaultPath {
    type V = Seq<char>;

    closed spec fn view(&self) -> Seq<char> {
        self.0@
    }
}

/// The index of the last `b` byte, if any.
pub open spec fn last_index_of(s: Seq<u8>, b: u8) -> Option<int>
    decreases s.len(),
{
    if s.len() == 0 {
        None
    } else if s.last() == b {
        Some(s.len() - 1)
    } else {
        last_index_of(s.drop_last(), b)
    }
}

proof fn lemma_last_index_of(s: Seq<u8>, b: u8, i: int)
    requires
        -1 <= i < s.len(),
        forall|k: int| i < k < s.len() ==> s[k] != b,
        i == -1 || s[i] == b,
    ensures
        last_index_of(s, b) == (if i == -1 {
            None::<int>
        } else {
            Some(i)
        }),
    decreases s.len(),
{
    if s.len() > 0 && i != s.len() - 1 {
        lemma_last_index_of(s.drop_last(), b, i);
    }
}

fn find_last(s: &[u8], b: u8) -> (r: Option<usize>)
    ensures
        r matches Some(i) ==> last_index_of(s@, b) == Some(i as int) && i < s.len() && s@[i as int]
            == b,
        r is None ==> last_index_of(s@, b) is None,
{
    let mut i = s.len();
    while i > 0
        invariant
            0 <= i <= s.len(),
            forall|k: int| i <= k < s.len() ==> s@[k] != b,
        decreases i,
    {
        if s[i - 1] == b {
            proof {
                lemma_last_index_of(s@, b, i - 1);
            }
            return Some(i - 1);
        }
        i = i - 1;
    }
    proof {
        lemma_last_index_of(s@, b, -1);
    }
    None
}

/// Where the final component starts, in the bytes of a path.
pub open spec fn name_start(p: Seq<u8>) -> int {
    match last_index_of(p, 47u8) {
        Some(i) => i + 1,
        None => 0,
    }
}

/// The bytes of the final component.
pub open spec fn name_bytes(p: Seq<u8>) -> Seq<u8> {
    p.subrange(name_start(p), p.len() as int)
}

/// Where a name's extension dot is: the last `.`, unless the name starts with it.
pub open spec fn ext_dot(name: Seq<u8>) -> Option<int> {
    match last_index_of(name, 46u8) {
        Some(i) => if i > 0 {
            Some(i)
        } else {
            None
        },
        None => None,
    }
}

pub open spec fn ascii_lower_byte(b: u8) -> u8 {
    if 65 <= b <= 90 {
        (b + 32) as u8
    } else {
        b
    }
}

/// `eq_ignore_ascii_case`, on bytes.
pub open spec fn eq_ignore_ascii_case(a: Seq<u8>, b: Seq<u8>) -> bool {
    a.len() == b.len() && forall|i: int| 0 <= i < a.len() ==> ascii_lower_byte(a[i])
        == ascii_lower_byte(#[trigger] b[i])
}

/// The extension of a path's final component, if it has one.
pub open spec fn extension_bytes(p: Seq<u8>) -> Option<Seq<u8>> {
    let name = name_bytes(p);
    match ext_dot(name) {
        Some(i) => Some(name.subrange(i + 1, name.len() as int)),
        None => None,
    }
}

fn eq_ignore_case(a: &[u8], lit: &[u8]) -> (r: bool)
    ensures
        r == eq_ignore_ascii_case(a@, lit@),
{
    if a.len() != lit.len() {
        return false;
    }
    let mut i: usize = 0;
    while i < a.len()
        invariant
            a.len() == lit.len(),
            0 <= i <= a.len(),
            forall|k: int| 0 <= k < i ==> ascii_lower_byte(a@[k]) == ascii_lower_byte(
                #[trigger] lit@[k],
            ),
        decreases a.len() - i,
    {
        let x = if 65 <= a[i] && a[i] <= 90 {
            a[i] + 32
        } else {
            a[i]
        };
        let y = if 65 <= lit[i] && lit[i] <= 90 {
            lit[i] + 32
        } else {
            lit[i]
        };
        if x != y {
            return false;
        }
        i = i + 1;
    }
    true
}

impl VaultPath {
    /// Validate and normalise a vault-relative path.
    pub fn new(input: &str) -> (r: Result<VaultPath, Error>)
        ensures
            match r {
                Ok(p) => path_problem(input@) is None && p@ == normalise(input@),
                Err(e) => e matches Error::InvalidVaultPath { input: i, reason } && i@ == input@
                    && path_problem(input@) == Some(reason),
            },
    {
        let s = chars_of(input);
        let ghost t = s@;
        if s.len() == 0 {
            return Err(Error::invalid(input, PathProblem::Empty));
        }
        let mut i: usize = 0;
        while i < s.len()
            invariant
                s@ == input@,
                s.len() > 0,
                0 <= i <= s.len(),
                forall|k: int| 0 <= k < i ==> s@[k] != '\0',
            decreases s.len() - i,
        {
            if s[i] == '\0' {
                assert(s@.contains('\0')) by {
                    assert(s@[i as int] == '\0');
                }
                return Err(Error::invalid(input, PathProblem::Nul));
            }
            i = i + 1;
        }
        assert(!t.contains('\0'));
        i = 0;
        while i < s.len()
            invariant
                s@ == input@,
                s.len() > 0,
                !s@.contains('\0'),
                0 <= i <= s.len(),
                forall|k: int| 0 <= k < i ==> s@[k] != ':',
            decreases s.len() - i,
        {
            if s[i] == ':' {
                assert(s@.contains(':')) by {
                    assert(s@[i as int] == ':');
                }
                return Err(Error::invalid(input, PathProblem::Colon));
            }
            i = i + 1;
        }
        assert(!t.contains(':'));
        if s[0] == '/' || s[0] == '\\' {
            return Err(Error::invalid(input, PathProblem::Absolute));
        }
        let mut out: Vec<char> = Vec::new();
        let mut nkept: usize = 0;
        let mut cur: Vec<char> = Vec::new();
        let ghost mut done: Seq<Seq<char>> = seq![];
        i = 0;
        assert(t.take(0) =~= Seq::<char>::empty());
        while i < s.len()
            invariant
                t == s@,
                t == input@,
                t.len() > 0,
                !t.contains('\0'),
                !t.contains(':'),
                !is_sep(t[0]),
                0 <= i <= s.len(),
                split_seps(t.take(i as int)) == done.push(cur@),
                nkept + cur.len() <= i,
                first_problem(done) is None,
                out@ == join_slash(kept(done)),
                nkept == kept(done).len(),
                nkept <= i,
            decreases s.len() - i,
        {
            let c = s[i];
            proof {
                assert(t.take(i + 1).drop_last() =~= t.take(i as int));
                assert(t.take(i + 1).last() == c);
            }
            if c == '/' || c == '\\' {
                if !(cur.len() == 0 || (cur.len() == 1 && cur[0] == '.')) {
                    proof {
                        assert(!is_skipped(cur@));
                    }
                    match check_component(&cur) {
                        Some(p) => {
                            proof {
                                let d2 = done.push(cur@);
                                assert(d2.drop_last() =~= done);
                                assert(first_problem(d2) == Some(p));
                                let sp = split_seps(t.take(i + 1));
                                assert(sp == d2.push(seq![]));
                                assert(sp.take(d2.len() as int) =~= d2);
                                lemma_split_prefix(t, i + 1, t.len() as int);
                                let full = split_seps(t.take(t.len() as int));
                                assert(full.take(d2.len() as int) =~= d2);
                                lemma_first_problem_prefix(full, d2.len() as int);
                                assert(t.take(t.len() as int) =~= t);
                            }
                            return Err(Error::invalid(input, p));
                        },
                        None => {},
                    }
                    if nkept > 0 {
                        out.push('/');
                    }
                    let mut k: usize = 0;
                    let ghost base = out@;
                    while k < cur.len()
                        invariant
                            0 <= k <= cur.len(),
                            out@ == base + cur@.take(k as int),
                        decreases cur.len() - k,
                    {
                        out.push(cur[k]);
                        k = k + 1;
                        assert(out@ =~= base + cur@.take(k as int));
                    }
                    proof {
                        assert(cur@.take(cur.len() as int) =~= cur@);
                        let nd = done.push(cur@);
                        assert(nd.drop_last() =~= done);
                        assert(kept(nd) == kept(done).push(cur@));
                        if kept(done).len() > 0 {
                            assert(kept(nd).drop_last() =~= kept(done));
                        } else {
                            assert(out@ =~= cur@);
                        }
                    }
                    nkept = nkept + 1;
                } else {
                    proof {
                        if cur.len() == 1 {
                            assert(cur@ =~= seq!['.']);
                        }
                        assert(is_skipped(cur@));
                        let nd = done.push(cur@);
                        assert(nd.drop_last() =~= done);
                    }
                }
                proof {
                    done = done.push(cur@);
                }
                cur = Vec::new();
            } else {
                cur.push(c);
                proof {
                    let sp = split_seps(t.take(i as int));
                    assert(sp.update(sp.len() - 1, sp.last().push(c)) =~= done.push(cur@));
                }
            }
            i = i + 1;
        }
        assert(t.take(s.len() as int) =~= t);
        let ghost all = done.push(cur@);
        assert(all.drop_last() =~= done);
        if !(cur.len() == 0 || (cur.len() == 1 && cur[0] == '.')) {
            match check_component(&cur) {
                Some(p) => return Err(Error::invalid(input, p)),
                None => {},
            }
            if nkept > 0 {
                out.push('/');
            }
            let mut k: usize = 0;
            let ghost base = out@;
            while k < cur.len()
                invariant
                    0 <= k <= cur.len(),
                    out@ == base + cur@.take(k as int),
                decreases cur.len() - k,
            {
                out.push(cur[k]);
                k = k + 1;
                assert(out@ =~= base + cur@.take(k as int));
            }
            proof {
                assert(cur@.take(cur.len() as int) =~= cur@);
                assert(kept(all) == kept(done).push(cur@));
                if kept(done).len() > 0 {
                    assert(kept(all).drop_last() =~= kept(done));
                } else {
                    assert(out@ =~= cur@);
                }
            }
            nkept = nkept + 1;
        } else {
            proof {
                if cur.len() == 1 {
                    assert(cur@ =~= seq!['.']);
                }
            }
            assert(kept(all) == kept(done));
        }
        if nkept == 0 {
            return Err(Error::invalid(input, PathProblem::Root));
        }
        Ok(VaultPath(string_of(out.as_slice())))
    }

    pub fn as_str(&self) -> (r: &str)
        ensures
            r@ == self@,
    {
        self.0.as_str()
    }

    /// The same path, owned anew.
    pub fn copied(&self) -> (r: VaultPath)
        ensures
            r@ == self@,
    {
        VaultPath(own(self.0.as_str()))
    }

    /// The final component: `Daily/2026-09-02.md` gives `2026-09-02.md`.
    pub fn file_name(&self) -> (r: &str)
        ensures
            sb(r) == name_bytes(encode_utf8(self@)),
    {
        let s = self.0.as_str();
        let b = s.as_bytes();
        let ghost p = b@;
        let start = match find_last(b, 47u8) {
            Some(i) => i + 1,
            None => 0,
        };
        proof {
            is_char_boundary_start_end_of_seq(p);
            if start > 0 {
                lemma_after_ascii_boundary(p, start as int);
            }
        }
        slice(s, start, b.len())
    }

    /// The final component without its extension: what a `[[wikilink]]` matches.
    pub fn stem(&self) -> (r: &str)
        ensures
            sb(r) == (match ext_dot(name_bytes(encode_utf8(self@))) {
                Some(i) => name_bytes(encode_utf8(self@)).take(i),
                None => name_bytes(encode_utf8(self@)),
            }),
    {
        let name = self.file_name();
        let b = name.as_bytes();
        match find_last(b, 46u8) {
            Some(i) => if i > 0 {
                proof {
                    is_char_boundary_start_end_of_seq(b@);
                    lemma_ascii_boundary(b@, i as int);
                }
                let r = slice(name, 0, i);
                assert(sb(r) =~= b@.take(i as int));
                r
            } else {
                name
            },
            None => name,
        }
    }

    /// The text after the final component's last dot, unless it starts with it.
    pub fn extension(&self) -> (r: Option<&str>)
        ensures
            match extension_bytes(encode_utf8(self@)) {
                Some(e) => r matches Some(x) && sb(x) == e,
                None => r is None,
            },
    {
        let name = self.file_name();
        let b = name.as_bytes();
        match find_last(b, 46u8) {
            Some(i) => if i > 0 {
                proof {
                    is_char_boundary_start_end_of_seq(b@);
                    lemma_after_ascii_boundary(b@, i + 1);
                }
                Some(slice(name, i + 1, b.len()))
            } else {
                None
            },
            None => None,
        }
    }

    /// Everything before the final `/`, if there is one.
    pub fn parent(&self) -> (r: Option<VaultPath>)
        ensures
            match last_index_of(encode_utf8(self@), 47u8) {
                Some(i) => r matches Some(q) && encode_utf8(q@) == encode_utf8(self@).take(i),
                None => r is None,
            },
    {
        let s = self.0.as_str();
        let b = s.as_bytes();
        match find_last(b, 47u8) {
            Some(i) => {
                proof {
                    is_char_boundary_start_end_of_seq(b@);
                    lemma_ascii_boundary(b@, i as int);
                }
                let head = slice(s, 0, i);
                assert(sb(head) =~= b@.take(i as int));
                Some(VaultPath(own(head)))
            },
            None => None,
        }
    }

    /// Whether the extension is `md`, in any ASCII case.
    pub fn is_markdown(&self) -> (r: bool)
        ensures
            r == (extension_bytes(encode_utf8(self@)) matches Some(e) && eq_ignore_ascii_case(
                e,
                seq![109u8, 100u8],
            )),
    {
        match self.extension() {
            Some(e) => {
                let lit: [u8; 2] = [109u8, 100u8];
                let r = eq_ignore_case(e.as_bytes(), &lit);
                assert(lit@ =~= seq![109u8, 100u8]);
                r
            },
            None => false,
        }
    }

    /// Whether the extension is `canvas`, in any ASCII case.
    pub fn is_canvas(&self) -> (r: bool)
        ensures
            r == (extension_bytes(encode_utf8(self@)) matches Some(e) && eq_ignore_ascii_case(
                e,
                seq![99u8, 97u8, 110u8, 118u8, 97u8, 115u8],
            )),
    {
        match self.extension() {
            Some(e) => {
                let lit: [u8; 6] = [99u8, 97u8, 110u8, 118u8, 97u8, 115u8];
                let r = eq_ignore_case(e.as_bytes(), &lit);
                assert(lit@ =~= seq![99u8, 97u8, 110u8, 118u8, 97u8, 115u8]);
                r
            },
            None => false,
        }
    }
}

/// No separator anywhere in a component.
pub open spec fn sep_free(c: Seq<char>) -> bool {
    forall|i: int| 0 <= i < c.len() ==> !is_sep(#[trigger] c[i])
}

/// Appending separator-free text extends the last component.
proof fn lemma_split_extend(x: Seq<char>, y: Seq<char>)
    requires
        sep_free(y),
    ensures
        split_seps(x + y) == split_seps(x).update(
            split_seps(x).len() - 1,
            split_seps(x).last() + y,
        ),
    decreases y.len(),
{
    lemma_split_nonempty(x);
    if y.len() == 0 {
        assert(x + y =~= x);
        assert(split_seps(x).update(split_seps(x).len() - 1, split_seps(x).last() + y) =~= split_seps(
            x,
        ));
    } else {
        let y0 = y.drop_last();
        assert forall|i: int| 0 <= i < y0.len() implies !is_sep(#[trigger] y0[i]) by {
            assert(y0[i] == y[i]);
        }
        lemma_split_extend(x, y0);
        assert((x + y).drop_last() =~= x + y0);
        assert((x + y).last() == y.last());
        assert(!is_sep(y[y.len() - 1]));
        let r = split_seps(x + y0);
        lemma_split_nonempty(x + y0);
        assert(split_seps(x + y) == r.update(r.len() - 1, r.last().push(y.last())));
        let sx = split_seps(x);
        assert(r.len() == sx.len());
        assert(r.last() == sx.last() + y0);
        assert((sx.last() + y0).push(y.last()) =~= sx.last() + y);
        assert(split_seps(x + y) =~= sx.update(sx.len() - 1, sx.last() + y));
    }
}

/// Splitting components joined by `/` gives them back.
proof fn lemma_split_join(cs: Seq<Seq<char>>)
    requires
        cs.len() >= 1,
        forall|k: int| 0 <= k < cs.len() ==> sep_free(#[trigger] cs[k]),
    ensures
        split_seps(join_slash(cs)) == cs,
    decreases cs.len(),
{
    if cs.len() == 1 {
        lemma_split_extend(seq![], cs[0]);
        assert(seq![] + cs[0] =~= cs[0]);
        assert(split_seps(Seq::<char>::empty()) == seq![Seq::<char>::empty()]);
        assert(seq![Seq::<char>::empty()].update(0, Seq::<char>::empty() + cs[0]) =~= cs);
    } else {
        let d = cs.drop_last();
        assert forall|k: int| 0 <= k < d.len() implies sep_free(#[trigger] d[k]) by {
            assert(d[k] == cs[k]);
        }
        lemma_split_join(d);
        let x = join_slash(d) + seq!['/'];
        assert(x.drop_last() =~= join_slash(d));
        assert(split_seps(x) == split_seps(join_slash(d)).push(seq![]));
        assert(sep_free(cs.last()));
        lemma_split_extend(x, cs.last());
        assert(join_slash(cs) == x + cs.last());
        assert(split_seps(join_slash(cs)) =~= cs);
    }
}

/// Components as `split_seps` yields them carry no separator, and every
/// character in them is one of the text's.
proof fn lemma_split_parts(s: Seq<char>)
    ensures
        forall|k: int| 0 <= k < split_seps(s).len() ==> sep_free(#[trigger] split_seps(s)[k]),
        forall|k: int, i: int|
            0 <= k < split_seps(s).len() && 0 <= i < split_seps(s)[k].len() ==> s.contains(
                #[trigger] split_seps(s)[k][i],
            ),
    decreases s.len(),
{
    lemma_split_nonempty(s);
    if s.len() > 0 {
        let d = s.drop_last();
        lemma_split_parts(d);
        lemma_split_nonempty(d);
        let r = split_seps(d);
        assert forall|k: int| 0 <= k < split_seps(s).len() implies sep_free(
            #[trigger] split_seps(s)[k],
        ) by {
            if is_sep(s.last()) {
                if k < r.len() {
                    assert(split_seps(s)[k] == r[k]);
                }
            } else {
                if k < r.len() - 1 {
                    assert(split_seps(s)[k] == r[k]);
                } else {
                    let c = r.last().push(s.last());
                    assert(split_seps(s)[k] == c);
                    assert forall|i: int| 0 <= i < c.len() implies !is_sep(#[trigger] c[i]) by {
                        if i < c.len() - 1 {
                            assert(c[i] == r[r.len() - 1][i]);
                        }
                    }
                }
            }
        }
        assert forall|k: int, i: int|
            0 <= k < split_seps(s).len() && 0 <= i < split_seps(s)[k].len() implies s.contains(
            #[trigger] split_seps(s)[k][i],
        ) by {
            let c = split_seps(s)[k][i];
            let inner: bool = if is_sep(s.last()) {
                k < r.len()
            } else {
                k < r.len() - 1 || i < r.last().len()
            };
            if inner {
                let rk = if is_sep(s.last()) || k < r.len() - 1 {
                    k
                } else {
                    r.len() - 1
                };
                assert(c == r[rk][i]);
                assert(d.contains(c));
                let j = choose|j: int| 0 <= j < d.len() && d[j] == c;
                assert(s[j] == c);
            } else {
                assert(c == s.last());
                assert(s[s.len() - 1] == c);
            }
        }
    }
}

/// Every kept component was a component, and was not skipped.
proof fn lemma_kept_from(cs: Seq<Seq<char>>)
    ensures
        forall|k: int|
            0 <= k < kept(cs).len() ==> !is_skipped(#[trigger] kept(cs)[k]) && exists|j: int|
                0 <= j < cs.len() && cs[j] == kept(cs)[k],
    decreases cs.len(),
{
    if cs.len() > 0 {
        let d = cs.drop_last();
        lemma_kept_from(d);
        assert forall|k: int| 0 <= k < kept(cs).len() implies !is_skipped(#[trigger] kept(cs)[k])
            && exists|j: int| 0 <= j < cs.len() && cs[j] == kept(cs)[k] by {
            if k < kept(d).len() {
                assert(kept(cs)[k] == kept(d)[k]);
                let j = choose|j: int| 0 <= j < d.len() && d[j] == kept(d)[k];
                assert(cs[j] == d[j]);
            } else {
                assert(kept(cs)[k] == cs.last());
                assert(cs[cs.len() - 1] == cs.last());
            }
        }
    }
}

/// Components without a skipped one are all kept.
proof fn lemma_kept_all(cs: Seq<Seq<char>>)
    requires
        forall|k: int| 0 <= k < cs.len() ==> !is_skipped(#[trigger] cs[k]),
    ensures
        kept(cs) == cs,
    decreases cs.len(),
{
    if cs.len() > 0 {
        let d = cs.drop_last();
        assert forall|k: int| 0 <= k < d.len() implies !is_skipped(#[trigger] d[k]) by {
            assert(d[k] == cs[k]);
        }
        lemma_kept_all(d);
        assert(!is_skipped(cs[cs.len() - 1]));
        assert(d.push(cs.last()) =~= cs);
    }
}

/// No problem among the components means none in any one of them.
proof fn lemma_no_problem(cs: Seq<Seq<char>>)
    ensures
        first_problem(cs) is None <==> (forall|k: int|
            0 <= k < cs.len() && !is_skipped(#[trigger] cs[k]) ==> component_problem(cs[k]) is None),
    decreases cs.len(),
{
    if cs.len() > 0 {
        let d = cs.drop_last();
        lemma_no_problem(d);
        if first_problem(cs) is None {
            assert forall|k: int|
                0 <= k < cs.len() && !is_skipped(#[trigger] cs[k]) implies component_problem(
                cs[k],
            ) is None by {
                if k < d.len() {
                    assert(d[k] == cs[k]);
                }
            }
        } else if first_problem(d) is Some {
            let k = choose|k: int|
                0 <= k < d.len() && !is_skipped(#[trigger] d[k]) && component_problem(d[k]) is Some;
            assert(cs[k] == d[k]);
        } else {
            assert(!is_skipped(cs[cs.len() - 1]) && component_problem(cs[cs.len() - 1]) is Some);
        }
    }
}

/// The characters of components joined by `/` are theirs, or `/`.
proof fn lemma_join_chars(cs: Seq<Seq<char>>, c: char)
    requires
        join_slash(cs).contains(c),
        c != '/',
    ensures
        exists|k: int, i: int| 0 <= k < cs.len() && 0 <= i < cs[k].len() && #[trigger] cs[k][i] == c,
    decreases cs.len(),
{
    let j = choose|j: int| 0 <= j < join_slash(cs).len() && join_slash(cs)[j] == c;
    if cs.len() == 1 {
        assert(cs[0][j] == c);
    } else if cs.len() > 1 {
        let d = cs.drop_last();
        let a = join_slash(d);
        if j < a.len() {
            assert(join_slash(cs)[j] == a[j]);
            assert(a.contains(c));
            lemma_join_chars(d, c);
            let (k, i) = choose|k: int, i: int|
                0 <= k < d.len() && 0 <= i < d[k].len() && #[trigger] d[k][i] == c;
            assert(cs[k] == d[k]);
        } else if j == a.len() {
            assert(join_slash(cs)[j] == '/');
        } else {
            assert(join_slash(cs)[j] == cs.last()[j - a.len() - 1]);
            assert(cs[cs.len() - 1][j - a.len() - 1] == c);
        }
    }
}

/// Joined non-empty components start with the first one's first character.
proof fn lemma_join_first(cs: Seq<Seq<char>>)
    requires
        cs.len() >= 1,
        cs[0].len() > 0,
    ensures
        join_slash(cs).len() > 0,
        join_slash(cs)[0] == cs[0][0],
    decreases cs.len(),
{
    if cs.len() > 1 {
        let d = cs.drop_last();
        assert(d[0] == cs[0]);
        lemma_join_first(d);
    }
}

/// A vault path is already in normal form: a path that was accepted,
/// normalised, is accepted again and normalises to itself. This is what lets
/// a path that crossed a transport be validated a second time without
/// changing.
pub proof fn law_a_normalised_path_is_accepted_unchanged(s: Seq<char>)
    requires
        path_problem(s) is None,
    ensures
        path_problem(normalise(s)) is None,
        normalise(normalise(s)) == normalise(s),
{
    let parts = split_seps(s);
    let k = kept(parts);
    let n = normalise(s);
    lemma_split_parts(s);
    lemma_kept_from(parts);
    assert forall|j: int| 0 <= j < k.len() implies sep_free(#[trigger] k[j]) by {
        let i = choose|i: int| 0 <= i < parts.len() && parts[i] == k[j];
        assert(sep_free(parts[i]));
    }
    assert(k.len() >= 1);
    lemma_split_join(k);
    lemma_kept_all(k);
    lemma_no_problem(parts);
    lemma_no_problem(k);
    assert forall|j: int| 0 <= j < k.len() && !is_skipped(#[trigger] k[j]) implies component_problem(
        k[j],
    ) is None by {
        let i = choose|i: int| 0 <= i < parts.len() && parts[i] == k[j];
    }
    assert(!is_skipped(k[0]));
    lemma_join_first(k);
    let i0 = choose|i: int| 0 <= i < parts.len() && parts[i] == k[0];
    assert(sep_free(k[0]));
    assert(!is_sep(n[0]));
    assert(!n.contains('\0')) by {
        if n.contains('\0') {
            lemma_join_chars(k, '\0');
            let (a, b) = choose|a: int, b: int| 0 <= a < k.len() && 0 <= b < k[a].len() && #[trigger] k[a][b] == '\0';
            let i = choose|i: int| 0 <= i < parts.len() && parts[i] == k[a];
            assert(parts[i][b] == '\0');
            assert(s.contains(parts[i][b]));
        }
    }
    assert(!n.contains(':')) by {
        if n.contains(':') {
            lemma_join_chars(k, ':');
            let (a, b) = choose|a: int, b: int| 0 <= a < k.len() && 0 <= b < k[a].len() && #[trigger] k[a][b] == ':';
            let i = choose|i: int| 0 <= i < parts.len() && parts[i] == k[a];
            assert(parts[i][b] == ':');
            assert(s.contains(parts[i][b]));
        }
    }
}

/// Components that each pass on their own join into an accepted path in
/// normal form.
proof fn lemma_join_accepted(cs: Seq<Seq<char>>)
    requires
        cs.len() >= 1,
        forall|j: int|
            0 <= j < cs.len() ==> sep_free(#[trigger] cs[j]) && !is_skipped(cs[j]) && component_problem(cs[j])
                is None && !cs[j].contains('\0') && !cs[j].contains(':'),
    ensures
        path_problem(join_slash(cs)) is None,
        normalise(join_slash(cs)) == join_slash(cs),
{
    let n = join_slash(cs);
    lemma_split_join(cs);
    lemma_kept_all(cs);
    lemma_no_problem(cs);
    assert(!is_skipped(cs[0]));
    lemma_join_first(cs);
    assert(!is_sep(n[0]));
    assert(!n.contains('\0')) by {
        if n.contains('\0') {
            lemma_join_chars(cs, '\0');
            let (a, b) = choose|a: int, b: int| 0 <= a < cs.len() && 0 <= b < cs[a].len() && #[trigger] cs[a][b] == '\0';
            assert(cs[a].contains(cs[a][b]));
        }
    }
    assert(!n.contains(':')) by {
        if n.contains(':') {
            lemma_join_chars(cs, ':');
            let (a, b) = choose|a: int, b: int| 0 <= a < cs.len() && 0 <= b < cs[a].len() && #[trigger] cs[a][b] == ':';
            assert(cs[a].contains(cs[a][b]));
        }
    }
}

/// The parent of a vault path is itself a vault path: everything before the
/// last `/` of an accepted path in normal form is accepted and already in
/// normal form, so a parent built without validation is still valid.
pub proof fn law_a_parent_is_itself_a_vault_path(s: Seq<char>)
    requires
        path_problem(s) is None,
        normalise(s) == s,
        s.contains('/'),
    ensures
        ({
            let k = kept(split_seps(s));
            let p = join_slash(k.drop_last());
            &&& k.len() >= 2
            &&& s == p + seq!['/'] + k.last()
            &&& !k.last().contains('/')
            &&& path_problem(p) is None
            &&& normalise(p) == p
        }),
{
    let parts = split_seps(s);
    let k = kept(parts);
    lemma_split_parts(s);
    lemma_kept_from(parts);
    lemma_no_problem(parts);
    assert forall|j: int|
        0 <= j < k.len() implies sep_free(#[trigger] k[j]) && !is_skipped(k[j]) && component_problem(k[j])
            is None && !k[j].contains('\0') && !k[j].contains(':') by {
        let i = choose|i: int| 0 <= i < parts.len() && parts[i] == k[j];
        assert(sep_free(parts[i]));
        if k[j].contains('\0') {
            let b = choose|b: int| 0 <= b < k[j].len() && k[j][b] == '\0';
            assert(parts[i][b] == '\0');
            assert(s.contains(parts[i][b]));
        }
        if k[j].contains(':') {
            let b = choose|b: int| 0 <= b < k[j].len() && k[j][b] == ':';
            assert(parts[i][b] == ':');
            assert(s.contains(parts[i][b]));
        }
    }
    assert(k.len() >= 1);
    if k.len() == 1 {
        assert(s == k[0]);
        let b = choose|b: int| 0 <= b < s.len() && s[b] == '/';
        assert(!is_sep(k[0][b]));
    }
    assert(k.len() >= 2);
    let d = k.drop_last();
    assert(s == join_slash(d) + seq!['/'] + k.last());
    assert(!k.last().contains('/')) by {
        if k.last().contains('/') {
            let b = choose|b: int| 0 <= b < k.last().len() && k.last()[b] == '/';
            assert(!is_sep(k[k.len() - 1][b]));
        }
    }
    assert forall|j: int|
        0 <= j < d.len() implies sep_free(#[trigger] d[j]) && !is_skipped(d[j]) && component_problem(d[j])
            is None && !d[j].contains('\0') && !d[j].contains(':') by {
        assert(d[j] == k[j]);
    }
    lemma_join_accepted(d);
}


/// What an accepted path is, rule by rule: its normal form is its kept
/// components joined by `/`, is not empty, holds no NUL and no `:`, and does
/// not start with a separator; and every component is non-empty, neither `.`
/// nor `..`, not all whitespace, ends in neither a space nor a dot, is no
/// Windows device name before its first dot, and holds no separator. The
/// normal form is accepted again, unchanged.
pub proof fn law_an_accepted_path_keeps_every_rule(s: Seq<char>)
    requires
        path_problem(s) is None,
    ensures
        ({
            let n = normalise(s);
            let cs = kept(split_seps(s));
            &&& n == join_slash(cs)
            &&& n.len() > 0
            &&& !n.contains('\0')
            &&& !n.contains(':')
            &&& !is_sep(n[0])
            &&& forall|j: int|
                0 <= j < cs.len() ==> {
                    let c = #[trigger] cs[j];
                    &&& c.len() > 0
                    &&& c != seq!['.']
                    &&& c != seq!['.', '.']
                    &&& !all_white_space(c)
                    &&& c.last() != ' '
                    &&& c.last() != '.'
                    &&& !is_reserved_stem(device_stem(c))
                    &&& sep_free(c)
                }
            &&& path_problem(n) is None
            &&& normalise(n) == n
        }),
{
    law_a_normalised_path_is_accepted_unchanged(s);
    let parts = split_seps(s);
    let cs = kept(parts);
    lemma_split_parts(s);
    lemma_kept_from(parts);
    lemma_no_problem(parts);
    assert forall|j: int| 0 <= j < cs.len() implies {
        let c = #[trigger] cs[j];
        &&& c.len() > 0
        &&& c != seq!['.']
        &&& c != seq!['.', '.']
        &&& !all_white_space(c)
        &&& c.last() != ' '
        &&& c.last() != '.'
        &&& !is_reserved_stem(device_stem(c))
        &&& sep_free(c)
    } by {
        let i = choose|i: int| 0 <= i < parts.len() && parts[i] == cs[j];
        assert(sep_free(parts[i]));
        assert(!is_skipped(parts[i]));
        assert(component_problem(parts[i]) is None);
    }
}


/// A character other than `/` encodes to bytes none of which is `/`: in
/// UTF-8 every byte of a longer encoding has its high bit set.
proof fn lemma_scalar_not_slash(v: u32)
    requires
        v != 47,
    ensures
        forall|j: int| 0 <= j < encode_scalar(v).len() ==> encode_scalar(v)[j] != 47u8,
{
    assert(v <= 0x7F && v != 47 ==> (v & 0x7F) as u8 != 47u8) by (bit_vector);
    assert(forall|x: u8| #![auto] (0x80u8 | x) != 47u8 && (0xC0u8 | x) != 47u8 && (0xE0u8 | x) != 47u8 && (0xF0u8 | x) != 47u8) by (bit_vector);
}

/// Text without `/` has no `/` byte.
proof fn lemma_no_slash_byte(t: Seq<char>)
    requires
        !t.contains('/'),
    ensures
        forall|j: int| 0 <= j < encode_utf8(t).len() ==> encode_utf8(t)[j] != 47u8,
    decreases t.len(),
{
    if t.len() > 0 {
        let rest = t.drop_first();
        assert(!rest.contains('/')) by {
            if rest.contains('/') {
                let k = choose|k: int| 0 <= k < rest.len() && rest[k] == '/';
                assert(t[k + 1] == '/');
            }
        }
        lemma_no_slash_byte(rest);
        assert(t[0] != '/');
        assert((t[0] as u32) != 47) by {
            if (t[0] as u32) == 47 {
                char_u32_cast(t[0], 47u32);
                assert((47u32 as char) == '/');
            }
        }
        lemma_scalar_not_slash(t[0] as u32);
        let e = encode_scalar(t[0] as u32);
        assert(encode_utf8(t) == e + encode_utf8(rest));
        assert forall|j: int| 0 <= j < encode_utf8(t).len() implies encode_utf8(t)[j] != 47u8 by {
            if j >= e.len() {
                assert(encode_utf8(t)[j] == encode_utf8(rest)[j - e.len()]);
            } else {
                assert(encode_utf8(t)[j] == e[j]);
            }
        }
    }
}

/// The parent that `VaultPath::parent` gives is itself a vault path: for a
/// path in normal form, the text whose bytes are those before the last `/`
/// byte is accepted and in normal form, and the path is that parent, a `/`,
/// and a last component without `/`.
pub proof fn law_the_parent_of_a_vault_path_is_one(s: Seq<char>, q: Seq<char>, i: int)
    requires
        path_problem(s) is None,
        normalise(s) == s,
        last_index_of(encode_utf8(s), 47u8) == Some(i),
        encode_utf8(q) == encode_utf8(s).take(i),
    ensures
        path_problem(q) is None,
        normalise(q) == q,
        s == q + seq!['/'] + kept(split_seps(s)).last(),
        !kept(split_seps(s)).last().contains('/'),
{
    let b = encode_utf8(s);
    assert(s.contains('/')) by {
        if !s.contains('/') {
            lemma_last_index_of_found(b, 47u8);
            lemma_no_slash_byte(s);
        }
    }
    law_a_parent_is_itself_a_vault_path(s);
    let k = kept(split_seps(s));
    let p = join_slash(k.drop_last());
    let last = k.last();
    crate::text::lemma_encode_concat(p, seq!['/']);
    crate::text::lemma_encode_concat(p + seq!['/'], last);
    assert(encode_utf8(seq!['/']) =~= seq![47u8]) by {
        reveal_with_fuel(encode_utf8, 2);
        assert(('/' as u32) == 47);
        assert((47u32 & 0x7F) as u8 == 47u8) by (bit_vector);
        assert(seq!['/'].drop_first() =~= Seq::<char>::empty());
    }
    lemma_no_slash_byte(last);
    let pb = encode_utf8(p);
    assert(b == pb + seq![47u8] + encode_utf8(last));
    lemma_last_index_of(b, 47u8, pb.len() as int);
    assert(b.take(i) =~= pb);
    crate::text::lemma_bytes_determine_chars(q, p);
}

proof fn lemma_last_index_of_found(s: Seq<u8>, b: u8)
    requires
        last_index_of(s, b) is Some,
    ensures
        exists|k: int| 0 <= k < s.len() && s[k] == b,
    decreases s.len(),
{
    if s.last() != b {
        lemma_last_index_of_found(s.drop_last(), b);
        let k = choose|k: int| 0 <= k < s.drop_last().len() && s.drop_last()[k] == b;
        assert(s[k] == b);
    }
}

} // verus!
