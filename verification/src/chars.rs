//! Character-level search and replace over owned text.
use vstd::prelude::*;
use crate::path::{is_white_space, is_whitespace};
use crate::text::{chars_of, lemma_trim_end, lemma_trim_start, string_of, trim, trim_end, trim_start};

verus! {

/// `p` occurs in `s` starting at `i`.
pub open spec fn occurs_at(s: Seq<char>, p: Seq<char>, i: int) -> bool {
    0 <= i && i + p.len() <= s.len() && s.subrange(i, i + p.len()) == p
}

/// The first occurrence of `p` in `s` at or after `i`.
pub open spec fn first_occurrence(s: Seq<char>, p: Seq<char>, i: int) -> Option<int>
    decreases s.len() - i,
{
    if i < 0 || i + p.len() > s.len() {
        None
    } else if occurs_at(s, p, i) {
        Some(i)
    } else if i >= s.len() {
        None
    } else {
        first_occurrence(s, p, i + 1)
    }
}

/// `p` occurs somewhere in `s`.
pub open spec fn contains_seq(s: Seq<char>, p: Seq<char>) -> bool {
    exists|i: int| occurs_at(s, p, i)
}

pub proof fn lemma_first_occurrence(s: Seq<char>, p: Seq<char>, i: int)
    requires
        0 <= i,
    ensures
        first_occurrence(s, p, i) matches Some(k) ==> i <= k && occurs_at(s, p, k) && forall|j: int|
            i <= j < k ==> !occurs_at(s, p, j),
        first_occurrence(s, p, i) is None ==> forall|j: int| i <= j ==> !occurs_at(s, p, j),
    decreases s.len() - i,
{
    if !(i < 0 || i + p.len() > s.len()) && !occurs_at(s, p, i) && i < s.len() {
        lemma_first_occurrence(s, p, i + 1);
    }
}

/// Whether `p` occurs in `s` at `i`.
pub fn matches_at(s: &[char], p: &[char], i: usize) -> (r: bool)
    ensures
        r == occurs_at(s@, p@, i as int),
{
    if i > s.len() || s.len() - i < p.len() {
        return false;
    }
    let mut k: usize = 0;
    while k < p.len()
        invariant
            i + p.len() <= s.len(),
            0 <= k <= p.len(),
            forall|j: int| 0 <= j < k ==> s@[i + j] == p@[j],
        decreases p.len() - k,
    {
        if s[i + k] != p[k] {
            assert(s@.subrange(i as int, i + p.len())[k as int] != p@[k as int]);
            return false;
        }
        k = k + 1;
    }
    assert(s@.subrange(i as int, i + p.len()) =~= p@);
    true
}

/// The first occurrence of `p` in `s` at or after `from`.
pub fn find_from(s: &[char], p: &[char], from: usize) -> (r: Option<usize>)
    ensures
        match r {
            Some(k) => first_occurrence(s@, p@, from as int) == Some(k as int) && occurs_at(
                s@,
                p@,
                k as int,
            ),
            None => first_occurrence(s@, p@, from as int) is None,
        },
{
    proof {
        lemma_first_occurrence(s@, p@, from as int);
    }
    if from > s.len() {
        return None;
    }
    let mut i = from;
    while s.len() - i >= p.len()
        invariant
            from <= i <= s.len(),
            first_occurrence(s@, p@, from as int) == first_occurrence(s@, p@, i as int),
        decreases s.len() - i,
    {
        if matches_at(s, p, i) {
            return Some(i);
        }
        if i == s.len() {
            return None;
        }
        i = i + 1;
    }
    None
}

/// Every occurrence of `p` replaced by `r`, scanning left to right from `i`.
pub open spec fn replace_from(s: Seq<char>, p: Seq<char>, r: Seq<char>, i: int) -> Seq<char>
    decreases s.len() - i,
{
    if i < 0 || i >= s.len() || p.len() == 0 {
        if 0 <= i < s.len() {
            s.subrange(i, s.len() as int)
        } else {
            seq![]
        }
    } else if occurs_at(s, p, i) {
        r + replace_from(s, p, r, i + p.len())
    } else {
        seq![s[i]] + replace_from(s, p, r, i + 1)
    }
}

/// `str::replace`: every non-overlapping occurrence, left to right.
pub open spec fn replace_all(s: Seq<char>, p: Seq<char>, r: Seq<char>) -> Seq<char> {
    replace_from(s, p, r, 0)
}

pub fn replace(s: &[char], p: &[char], r: &[char]) -> (out: Vec<char>)
    requires
        p@.len() > 0,
    ensures
        out@ == replace_all(s@, p@, r@),
{
    let mut out: Vec<char> = Vec::new();
    let mut i: usize = 0;
    assert(out@ + replace_from(s@, p@, r@, 0) =~= replace_all(s@, p@, r@));
    while i < s.len()
        invariant
            p@.len() > 0,
            0 <= i <= s.len(),
            out@ + replace_from(s@, p@, r@, i as int) == replace_all(s@, p@, r@),
        decreases s.len() - i,
    {
        let ghost before = out@;
        if matches_at(s, p, i) {
            let mut k: usize = 0;
            while k < r.len()
                invariant
                    0 <= k <= r.len(),
                    out@ == before + r@.take(k as int),
                decreases r.len() - k,
            {
                out.push(r[k]);
                k = k + 1;
                assert(out@ =~= before + r@.take(k as int));
            }
            assert(r@.take(r.len() as int) =~= r@);
            assert(out@ + replace_from(s@, p@, r@, i + p.len()) =~= before + replace_from(
                s@,
                p@,
                r@,
                i as int,
            ));
            i = i + p.len();
        } else {
            out.push(s[i]);
            assert(out@ + replace_from(s@, p@, r@, i + 1) =~= before + replace_from(
                s@,
                p@,
                r@,
                i as int,
            ));
            i = i + 1;
        }
    }
    assert(out@ + replace_from(s@, p@, r@, i as int) =~= out@);
    out
}

/// Literal text as characters.
pub fn lit(s: &str) -> (r: Vec<char>)
    ensures
        r@ == s@,
{
    chars_of(s)
}


/// A sub-range of characters, as a new vector.
pub fn slice_of(a: &[char], from: usize, to: usize) -> (r: Vec<char>)
    requires
        from <= to <= a.len(),
    ensures
        r@ == a@.subrange(from as int, to as int),
{
    let mut out: Vec<char> = Vec::new();
    let mut i: usize = from;
    while i < to
        invariant
            from <= i <= to <= a.len(),
            out@ == a@.subrange(from as int, i as int),
        decreases to - i,
    {
        out.push(a[i]);
        i = i + 1;
        assert(out@ =~= a@.subrange(from as int, i as int));
    }
    out
}

/// Characters as a string.
pub fn text(a: &[char]) -> (r: String)
    ensures
        r@ == a@,
{
    string_of(a)
}

/// Where `a` without its trailing whitespace ends.
pub fn trim_end_bound(a: &[char]) -> (r: usize)
    ensures
        r <= a.len(),
        a@.take(r as int) == trim_end(a@),
{
    let mut z: usize = a.len();
    while z > 0 && is_whitespace(a[z - 1])
        invariant
            0 <= z <= a.len(),
            forall|k: int| z <= k < a.len() ==> is_white_space(#[trigger] a@[k]),
        decreases z,
    {
        z = z - 1;
    }
    proof {
        lemma_trim_end(a@, z as int);
        assert(a@.take(z as int) =~= a@.subrange(0, z as int));
    }
    z
}

/// Where `a` without leading and trailing whitespace begins and ends.
pub fn trim_bounds(a: &[char]) -> (r: (usize, usize))
    ensures
        r.0 <= r.1 <= a.len(),
        a@.subrange(r.0 as int, r.1 as int) == trim(a@),
{
    let mut lo: usize = 0;
    while lo < a.len() && is_whitespace(a[lo])
        invariant
            0 <= lo <= a.len(),
            forall|k: int| 0 <= k < lo ==> is_white_space(#[trigger] a@[k]),
        decreases a.len() - lo,
    {
        lo = lo + 1;
    }
    proof {
        lemma_trim_start(a@, lo as int);
    }
    let ghost t = a@.subrange(lo as int, a.len() as int);
    let mut hi: usize = a.len();
    while hi > lo && is_whitespace(a[hi - 1])
        invariant
            lo <= hi <= a.len(),
            forall|k: int| hi <= k < a.len() ==> is_white_space(#[trigger] a@[k]),
        decreases hi,
    {
        hi = hi - 1;
    }
    proof {
        lemma_trim_end(t, hi - lo);
        assert(t.subrange(0, hi - lo) =~= a@.subrange(lo as int, hi as int));
    }
    (lo, hi)
}

/// `a` with leading and trailing whitespace removed, as a new vector.
pub fn trimmed(a: &[char]) -> (r: Vec<char>)
    ensures
        r@ == trim(a@),
{
    let (lo, hi) = trim_bounds(a);
    slice_of(a, lo, hi)
}

/// Appends characters to a vector.
pub fn extend(out: &mut Vec<char>, a: &[char])
    ensures
        final(out)@ == old(out)@ + a@,
{
    let ghost before = out@;
    let mut i: usize = 0;
    while i < a.len()
        invariant
            0 <= i <= a.len(),
            out@ == before + a@.take(i as int),
        decreases a.len() - i,
    {
        out.push(a[i]);
        i = i + 1;
        assert(out@ =~= before + a@.take(i as int));
    }
    assert(a@.take(a.len() as int) =~= a@);
}

/// `p` occurs in `s` exactly when a search from the start finds it.
pub proof fn lemma_contains_iff_found(s: Seq<char>, p: Seq<char>)
    ensures
        contains_seq(s, p) <==> first_occurrence(s, p, 0) is Some,
{
    lemma_first_occurrence(s, p, 0);
    if let Some(k) = first_occurrence(s, p, 0) {
        assert(occurs_at(s, p, k));
    }
}

/// Where the line starting at `i` ends: its `\n`, or the end of the text.
pub open spec fn line_end(t: Seq<char>, i: int) -> int
    decreases t.len() - i,
{
    if i < 0 || i >= t.len() {
        t.len() as int
    } else if t[i] == '\n' {
        i
    } else {
        line_end(t, i + 1)
    }
}

pub proof fn lemma_line_end(t: Seq<char>, i: int)
    requires
        0 <= i <= t.len(),
    ensures
        i <= line_end(t, i) <= t.len(),
        line_end(t, i) < t.len() ==> t[line_end(t, i)] == '\n',
    decreases t.len() - i,
{
    if i < t.len() && t[i] != '\n' {
        lemma_line_end(t, i + 1);
    }
}

/// The line starting at `i`, as `str::lines` yields it: without its `\n`,
/// and without a `\r` just before that `\n`.
pub open spec fn line_text(t: Seq<char>, i: int) -> Seq<char> {
    let e = line_end(t, i);
    let l = t.subrange(i, e);
    if e < t.len() && l.len() > 0 && l.last() == '\r' {
        l.drop_last()
    } else {
        l
    }
}

/// The lines of a text from `i` on, as `str::lines` yields them: split at
/// `\n`, a `\r` before the `\n` dropped, and no empty line after a final `\n`.
pub open spec fn lines_from(t: Seq<char>, i: int) -> Seq<Seq<char>>
    decreases t.len() - i,
{
    if i < 0 || i >= t.len() {
        seq![]
    } else if line_end(t, i) >= t.len() {
        seq![line_text(t, i)]
    } else {
        proof {
            lemma_line_end(t, i);
        }
        seq![line_text(t, i)] + lines_from(t, line_end(t, i) + 1)
    }
}

pub open spec fn lines_of(t: Seq<char>) -> Seq<Seq<char>> {
    lines_from(t, 0)
}

pub open spec fn line_views(v: Seq<Vec<char>>) -> Seq<Seq<char>> {
    v.map_values(|l: Vec<char>| l@)
}

/// The lines of a text, as `str::lines` yields them.
pub fn split_lines(t: &[char]) -> (r: Vec<Vec<char>>)
    ensures
        line_views(r@) == lines_of(t@),
{
    let mut out: Vec<Vec<char>> = Vec::new();
    let mut i: usize = 0;
    while i < t.len()
        invariant
            0 <= i <= t.len(),
            line_views(out@) + lines_from(t@, i as int) == lines_of(t@),
        decreases t.len() - i,
    {
        let mut e = i;
        while e < t.len() && t[e] != '\n'
            invariant
                i <= e <= t.len(),
                line_end(t@, i as int) == line_end(t@, e as int),
            decreases t.len() - e,
        {
            e = e + 1;
        }
        let mut stop = e;
        if e < t.len() && e > i && t[e - 1] == '\r' {
            stop = e - 1;
        }
        let line = slice_of(t, i, stop);
        assert(e == line_end(t@, i as int));
        assert(line@ =~= line_text(t@, i as int));
        let ghost prev = out@;
        out.push(line);
        assert(line_views(out@) =~= line_views(prev).push(line_text(t@, i as int)));
        if e == t.len() {
            assert(line_views(out@) + lines_from(t@, t.len() as int) =~= lines_of(t@));
            i = e;
        } else {
            assert(line_views(out@) + lines_from(t@, e + 1) =~= lines_of(t@));
            i = e + 1;
        }
    }
    assert(line_views(out@) =~= line_views(out@) + lines_from(t@, i as int));
    out
}

/// The parts with `sep` between each two, as `[String]::join` gives them.
pub open spec fn join_with(parts: Seq<Seq<char>>, sep: Seq<char>) -> Seq<char>
    decreases parts.len(),
{
    if parts.len() == 0 {
        seq![]
    } else if parts.len() == 1 {
        parts[0]
    } else {
        join_with(parts.drop_last(), sep) + sep + parts.last()
    }
}

/// Joins the parts with `sep` between each two.
pub fn join_parts(parts: &Vec<Vec<char>>, sep: &[char]) -> (r: Vec<char>)
    ensures
        r@ == join_with(line_views(parts@), sep@),
{
    let mut out: Vec<char> = Vec::new();
    let mut i: usize = 0;
    while i < parts.len()
        invariant
            0 <= i <= parts@.len(),
            out@ == join_with(line_views(parts@.take(i as int)), sep@),
        decreases parts@.len() - i,
    {
        if i > 0 {
            extend(&mut out, sep);
        }
        extend(&mut out, parts[i].as_slice());
        proof {
            let t = line_views(parts@.take(i + 1));
            assert(t.drop_last() =~= line_views(parts@.take(i as int)));
            assert(t.last() == parts@[i as int]@);
            if i == 0 {
                assert(out@ =~= t[0]);
            }
        }
        i = i + 1;
    }
    assert(parts@.take(i as int) =~= parts@);
    out
}

/// The first occurrence from `i` is `m` when `m` is an occurrence and none
/// comes before it.
pub proof fn lemma_first_occurrence_is(s: Seq<char>, p: Seq<char>, i: int, m: int)
    requires
        0 <= i <= m,
        occurs_at(s, p, m),
        forall|k: int| i <= k < m ==> !occurs_at(s, p, k),
    ensures
        first_occurrence(s, p, i) == Some(m),
    decreases m - i,
{
    if i < m {
        assert(!occurs_at(s, p, i));
        lemma_first_occurrence_is(s, p, i + 1, m);
    }
}


/// How many of the first `n` places in `t` an occurrence of `p` begins at.
pub open spec fn places_upto(t: Seq<char>, p: Seq<char>, n: int) -> nat
    decreases n,
{
    if n <= 0 {
        0
    } else {
        places_upto(t, p, n - 1) + if occurs_at(t, p, n - 1) {
            1nat
        } else {
            0nat
        }
    }
}

/// How many places in `t` an occurrence of `p` begins at. For a text that
/// cannot overlap itself this is the count `str::matches` gives.
pub open spec fn places(t: Seq<char>, p: Seq<char>) -> nat {
    places_upto(t, p, t.len() as int)
}

/// `c` is not a character of `p`.
pub open spec fn not_in(c: char, p: Seq<char>) -> bool {
    forall|k: int| 0 <= k < p.len() ==> p[k] != c
}

pub proof fn lemma_places_none(t: Seq<char>, p: Seq<char>, n: int)
    requires
        forall|i: int| 0 <= i < n ==> !occurs_at(t, p, i),
    ensures
        places_upto(t, p, n) == 0,
    decreases n,
{
    if n > 0 {
        lemma_places_none(t, p, n - 1);
    }
}

pub proof fn lemma_places_some(t: Seq<char>, p: Seq<char>, n: int, k: int)
    requires
        0 <= k < n,
        occurs_at(t, p, k),
    ensures
        places_upto(t, p, n) >= 1,
    decreases n,
{
    if k < n - 1 {
        lemma_places_some(t, p, n - 1, k);
    }
}

/// No occurrence means no place, and back.
pub proof fn lemma_places_zero(t: Seq<char>, p: Seq<char>)
    requires
        p.len() > 0,
    ensures
        places(t, p) == 0 <==> !contains_seq(t, p),
{
    if contains_seq(t, p) {
        let k = choose|k: int| occurs_at(t, p, k);
        lemma_places_some(t, p, t.len() as int, k);
    } else {
        lemma_places_none(t, p, t.len() as int);
    }
}

/// Text shorter than `p` holds no occurrence of it.
pub proof fn lemma_places_short(t: Seq<char>, p: Seq<char>)
    requires
        t.len() < p.len(),
    ensures
        places(t, p) == 0,
{
    lemma_places_none(t, p, t.len() as int);
}

/// An occurrence cannot straddle the join of `a` and `b` when nothing
/// follows it or a character on either side of it is not in `p`.
pub proof fn lemma_no_straddle(a: Seq<char>, b: Seq<char>, p: Seq<char>)
    requires
        b.len() == 0 || (b.len() > 0 && not_in(b[0], p)) || (a.len() > 0 && not_in(a.last(), p)),
    ensures
        forall|i: int| 0 <= i < a.len() && a.len() < i + p.len() ==> !occurs_at(a + b, p, i),
{
    assert forall|i: int| 0 <= i < a.len() && a.len() < i + p.len() implies !occurs_at(a + b, p, i) by {
        if occurs_at(a + b, p, i) {
            let s = a + b;
            assert(s.subrange(i, i + p.len()) == p);
            if b.len() == 0 {
            } else if b.len() > 0 && not_in(b[0], p) {
                assert(p[a.len() - i] == s[a.len() as int]);
            } else {
                assert(p[a.len() - 1 - i] == s[a.len() - 1]);
            }
        }
    }
}

/// Places in `a + b` are those in `a` and those in `b` when no occurrence
/// straddles the join.
pub proof fn lemma_places_concat(a: Seq<char>, b: Seq<char>, p: Seq<char>)
    requires
        p.len() > 0,
        forall|i: int| 0 <= i < a.len() && a.len() < i + p.len() ==> !occurs_at(a + b, p, i),
    ensures
        places(a + b, p) == places(a, p) + places(b, p),
{
    lemma_places_prefix(a, b, p, a.len() as int);
    lemma_places_suffix(a, b, p, b.len() as int);
}

proof fn lemma_places_prefix(a: Seq<char>, b: Seq<char>, p: Seq<char>, n: int)
    requires
        p.len() > 0,
        0 <= n <= a.len(),
        forall|i: int| 0 <= i < a.len() && a.len() < i + p.len() ==> !occurs_at(a + b, p, i),
    ensures
        places_upto(a + b, p, n) == places_upto(a, p, n),
    decreases n,
{
    if n > 0 {
        lemma_places_prefix(a, b, p, n - 1);
        let i = n - 1;
        if i + p.len() <= a.len() {
            assert((a + b).subrange(i, i + p.len()) =~= a.subrange(i, i + p.len()));
        }
    }
}

proof fn lemma_places_suffix(a: Seq<char>, b: Seq<char>, p: Seq<char>, m: int)
    requires
        p.len() > 0,
        0 <= m <= b.len(),
        places_upto(a + b, p, a.len() as int) == places_upto(a, p, a.len() as int),
    ensures
        places_upto(a + b, p, a.len() + m) == places_upto(a, p, a.len() as int) + places_upto(b, p, m),
    decreases m,
{
    if m > 0 {
        lemma_places_suffix(a, b, p, m - 1);
        let j = m - 1;
        if j + p.len() <= b.len() {
            assert((a + b).subrange(a.len() + j, a.len() + j + p.len()) =~= b.subrange(j, j + p.len()));
        }
    }
}

} // verus!
