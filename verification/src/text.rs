//! Byte-level views of UTF-8 text, and the few primitives every parser here shares.
use vstd::prelude::*;
use vstd::string::StringExecFns;
use vstd::utf8::*;

verus! {

broadcast use vstd::utf8::encode_utf8_valid_utf8;

/// The UTF-8 bytes of a string slice.
pub open spec fn sb(s: &str) -> Seq<u8> {
    encode_utf8(s@)
}

/// The UTF-8 bytes of an owned string.
pub open spec fn ob(s: String) -> Seq<u8> {
    encode_utf8(s@)
}

/// An index into valid UTF-8 that is either its end or an ASCII byte is a character boundary.
pub proof fn lemma_ascii_boundary(b: Seq<u8>, i: int)
    requires
        valid_utf8(b),
        0 <= i <= b.len(),
        i == b.len() || b[i] < 0x80,
    ensures
        is_char_boundary(b, i),
{
    is_char_boundary_start_end_of_seq(b);
    if i < b.len() {
        is_char_boundary_iff_not_is_continuation_byte(b, i);
    }
}

/// The index just after an ASCII byte of valid UTF-8 is a character boundary.
pub proof fn lemma_after_ascii_boundary(b: Seq<u8>, i: int)
    requires
        valid_utf8(b),
        0 < i <= b.len(),
        b[i - 1] < 0x80,
    ensures
        is_char_boundary(b, i),
{
    is_char_boundary_start_end_of_seq(b);
    if i < b.len() {
        is_char_boundary_iff_not_is_continuation_byte(b, i - 1);
        valid_utf8_split(b, i - 1);
        let s = b.subrange(i - 1, b.len() as int);
        assert(valid_first_scalar(s));
        assert(pop_first_scalar(s) =~= b.subrange(i, b.len() as int));
        let t = b.subrange(i, b.len() as int);
        assert(valid_utf8(t));
        assert(valid_first_scalar(t));
        assert(t[0] == b[i]);
        is_char_boundary_iff_not_is_continuation_byte(b, i);
    }
}

/// The sub-slice between two character boundaries, by byte offsets.
pub fn slice<'a>(s: &'a str, start: usize, end: usize) -> (r: &'a str)
    requires
        start <= end <= sb(s).len(),
        is_char_boundary(sb(s), start as int),
        is_char_boundary(sb(s), end as int),
    ensures
        sb(r) == sb(s).subrange(start as int, end as int),
{
    let ghost b = sb(s);
    let (_, tail) = s.split_at(start);
    proof {
        valid_utf8_split(b, start as int);
        let t = b.subrange(start as int, b.len() as int);
        assert(sb(tail) == t);
        is_char_boundary_start_end_of_seq(t);
        if end < b.len() {
            is_char_boundary_iff_not_is_continuation_byte(b, end as int);
            is_char_boundary_iff_not_is_continuation_byte(t, end - start);
        }
    }
    let (mid, _) = tail.split_at(end - start);
    proof {
        assert(sb(mid) =~= b.subrange(start as int, end as int));
    }
    mid
}

/// An owned copy of a string slice.
pub fn own(s: &str) -> (r: String)
    ensures
        r@ == s@,
{
    s.to_owned()
}

/// Appends a slice to an owned string.
pub fn push_str(out: &mut String, s: &str)
    ensures
        final(out)@ == old(out)@ + s@,
{
    out.append(s);
}


/// Encoding distributes over concatenation.
pub proof fn lemma_encode_concat(a: Seq<char>, b: Seq<char>)
    ensures
        encode_utf8(a + b) == encode_utf8(a) + encode_utf8(b),
    decreases a.len(),
{
    if a.len() == 0 {
        assert(a + b =~= b);
    } else {
        lemma_encode_concat(a.drop_first(), b);
        assert((a + b).drop_first() =~= a.drop_first() + b);
        assert(encode_utf8(a + b) =~= encode_utf8(a) + encode_utf8(b));
    }
}

/// Two strings with the same bytes are the same string.
pub proof fn lemma_bytes_determine_chars(a: Seq<char>, b: Seq<char>)
    requires
        encode_utf8(a) == encode_utf8(b),
    ensures
        a == b,
{
    encode_utf8_decode_utf8(a);
    encode_utf8_decode_utf8(b);
}

/// Appends the bytes `start..end` of `s`, both character boundaries, to `out`.
pub fn push_slice(out: &mut String, s: &str, start: usize, end: usize)
    requires
        start <= end <= sb(s).len(),
        is_char_boundary(sb(s), start as int),
        is_char_boundary(sb(s), end as int),
    ensures
        ob(*final(out)) == ob(*old(out)) + sb(s).subrange(start as int, end as int),
{
    let piece = slice(s, start, end);
    let ghost before = out@;
    out.append(piece);
    proof {
        lemma_encode_concat(before, piece@);
    }
}

/// Appends a whole slice to `out`, by bytes.
pub fn push_all(out: &mut String, s: &str)
    ensures
        ob(*final(out)) == ob(*old(out)) + sb(s),
{
    let ghost before = out@;
    out.append(s);
    proof {
        lemma_encode_concat(before, s@);
    }
}

/// Whether two strings are equal, compared byte by byte.
pub fn str_eq(a: &str, b: &str) -> (r: bool)
    ensures
        r == (a@ == b@),
{
    let x = a.as_bytes();
    let y = b.as_bytes();
    if x.len() != y.len() {
        return false;
    }
    let mut i: usize = 0;
    while i < x.len()
        invariant
            x@ == sb(a),
            y@ == sb(b),
            x.len() == y.len(),
            0 <= i <= x.len(),
            forall|k: int| 0 <= k < i ==> x@[k] == y@[k],
        decreases x.len() - i,
    {
        if x[i] != y[i] {
            return false;
        }
        i = i + 1;
    }
    proof {
        assert(sb(a) =~= sb(b));
        lemma_bytes_determine_chars(a@, b@);
    }
    true
}

/// The string a byte slice spells, when it is valid UTF-8 (`std::str::from_utf8`).
///
/// Trusted: claims what the standard library documents, that the bytes are
/// accepted exactly when they are valid UTF-8, and then spell the result.
#[verifier::external_body]
pub(crate) fn utf8_str(b: &[u8]) -> (r: Option<&str>)
    ensures
        r is Some <==> valid_utf8(b@),
        r matches Some(s) ==> sb(s) == b@,
{
    std::str::from_utf8(b).ok()
}

/// The characters of a string slice, in order.
pub fn chars_of(s: &str) -> (r: Vec<char>)
    ensures
        r@ == s@,
{
    let mut out: Vec<char> = Vec::new();
    proof {
        vstd::string::axiom_spec_iter(s);
    }
    for c in it: s.chars()
        invariant
            it.seq() == s@,
            out@ == s@.take(it.index()),
    {
        out.push(c);
        assert(out@ =~= s@.take(it.index() + 1));
    }
    assert(s@.take(s@.len() as int) =~= s@);
    out
}

/// The UTF-8 bytes of one character, appended.
fn push_encoded(out: &mut Vec<u8>, c: char)
    ensures
        final(out)@ == old(out)@ + encode_scalar(c as u32),
{
    let v = c as u32;
    proof {
        char_is_scalar(c);
    }
    if v <= 0x7F {
        out.push((v & 0x7F) as u8);
    } else if v <= 0x7FF {
        out.push(0xC0u8 | ((v >> 6) & 0x1F) as u8);
        out.push(0x80u8 | (v & 0x3F) as u8);
    } else if v <= 0xFFFF {
        out.push(0xE0u8 | ((v >> 12) & 0x0F) as u8);
        out.push(0x80u8 | ((v >> 6) & 0x3F) as u8);
        out.push(0x80u8 | (v & 0x3F) as u8);
    } else {
        out.push(0xF0u8 | ((v >> 18) & 0x7) as u8);
        out.push(0x80u8 | ((v >> 12) & 0x3F) as u8);
        out.push(0x80u8 | ((v >> 6) & 0x3F) as u8);
        out.push(0x80u8 | (v & 0x3F) as u8);
    }
    assert(final(out)@ =~= old(out)@ + encode_scalar(c as u32));
}

/// The string spelled by some characters: their UTF-8 encoding, checked.
pub fn string_of(cs: &[char]) -> (r: String)
    ensures
        r@ == cs@,
{
    let mut bytes: Vec<u8> = Vec::new();
    let mut i: usize = 0;
    while i < cs.len()
        invariant
            0 <= i <= cs.len(),
            bytes@ == encode_utf8(cs@.take(i as int)),
        decreases cs.len() - i,
    {
        push_encoded(&mut bytes, cs[i]);
        proof {
            let a = cs@.take(i as int);
            let one = seq![cs@[i as int]];
            lemma_encode_concat(a, one);
            assert(encode_utf8(one) =~= encode_scalar(cs@[i as int] as u32) + encode_utf8(
                one.drop_first(),
            ));
            assert(one.drop_first() =~= Seq::<char>::empty());
            assert(cs@.take(i + 1) =~= a + one);
        }
        i = i + 1;
    }
    assert(cs@.take(cs@.len() as int) =~= cs@);
    match utf8_str(bytes.as_slice()) {
        Some(s) => {
            proof {
                lemma_bytes_determine_chars(s@, cs@);
            }
            own(s)
        },
        None => {
            proof {
                assert(valid_utf8(encode_utf8(cs@)));
            }
            String::new()
        },
    }
}

/// Appends literal text, by characters.
pub fn push_chars(out: &mut String, s: &str)
    ensures
        final(out)@ == old(out)@ + s@,
{
    out.append(s);
}

/// The first character of a string slice.
pub fn first_char(s: &str) -> (r: Option<char>)
    ensures
        r == (if s@.len() == 0 {
            None
        } else {
            Some(s@[0])
        }),
{
    broadcast use vstd::string::next_postcondition;

    let mut it = s.chars();
    proof {
        vstd::string::axiom_spec_iter(s);
    }
    it.next()
}

/// The last character of a string slice, if it has one.
pub(crate) fn last_char(s: &str) -> (r: Option<char>)
    ensures
        r == (if s@.len() == 0 {
            None
        } else {
            Some(s@.last())
        }),
{
    let cs = chars_of(s);
    if cs.len() == 0 {
        None
    } else {
        Some(cs[cs.len() - 1])
    }
}

/// The character whose encoding starts at byte `j` of valid UTF-8.
pub open spec fn char_at(b: Seq<u8>, j: int) -> char {
    decode_utf8(b.subrange(j, b.len() as int))[0]
}

/// How many bytes the character at a boundary occupies, read from its first byte.
pub open spec fn width_at(b: Seq<u8>, j: int) -> int {
    length_of_first_scalar(b.subrange(j, b.len() as int))
}

/// A character always occupies at least one byte.
pub proof fn lemma_width_positive(b: Seq<u8>, j: int)
    ensures
        width_at(b, j) >= 1,
{
}

/// Facts about the character at a boundary: where it ends, and what follows.
pub proof fn lemma_char_at(b: Seq<u8>, j: int)
    requires
        valid_utf8(b),
        is_char_boundary(b, j),
        0 <= j < b.len(),
    ensures
        1 <= width_at(b, j) <= 4,
        j + width_at(b, j) <= b.len(),
        is_char_boundary(b, j + width_at(b, j)),
        encode_scalar(char_at(b, j) as u32).len() == width_at(b, j),
        width_at(b, j) == (if b[j] <= 0x7f {
            1int
        } else if 0xc0 <= b[j] <= 0xdf {
            2int
        } else if 0xe0 <= b[j] <= 0xef {
            3int
        } else {
            4int
        }),
        b[j] <= 0x7f ==> char_at(b, j) == (b[j] as char),
{
    let s = b.subrange(j, b.len() as int);
    valid_utf8_split(b, j);
    assert(valid_first_scalar(s));
    decode_utf8_encode_utf8(s);
    let cs = decode_utf8(s);
    assert(cs.len() > 0);
    encode_utf8_first_scalar(cs);
    let w = width_at(b, j);
    assert(pop_first_scalar(s) =~= b.subrange(j + w, b.len() as int));
    is_char_boundary_start_end_of_seq(b);
    if j + w < b.len() {
        let t = b.subrange(j + w, b.len() as int);
        assert(valid_utf8(t));
        assert(valid_first_scalar(t));
        assert(t[0] == b[j + w]);
        is_char_boundary_iff_not_is_continuation_byte(b, j + w);
    }
    if b[j] <= 0x7f {
        assert(cs[0] == (decode_first_scalar(s) as char));
        let x = b[j];
        assert(codepoint_width_1(x) == x as u32) by (bit_vector)
            requires x <= 0x7f;
    }
}

/// The width of the character whose first byte is `lead`, as `utf8_len` reads it.
pub fn utf8_len(lead: u8) -> (r: usize)
    ensures
        r == (if lead <= 0x7f {
            1int
        } else if 0xc0 <= lead <= 0xdf {
            2int
        } else if 0xe0 <= lead <= 0xef {
            3int
        } else {
            4int
        }),
{
    if lead <= 0x7f {
        1
    } else if 0xc0 <= lead && lead <= 0xdf {
        2
    } else if 0xe0 <= lead && lead <= 0xef {
        3
    } else {
        4
    }
}

/// Leading whitespace removed.
pub open spec fn trim_start(s: Seq<char>) -> Seq<char>
    decreases s.len(),
{
    if s.len() > 0 && crate::path::is_white_space(s[0]) {
        trim_start(s.drop_first())
    } else {
        s
    }
}

/// Trailing whitespace removed.
pub open spec fn trim_end(s: Seq<char>) -> Seq<char>
    decreases s.len(),
{
    if s.len() > 0 && crate::path::is_white_space(s.last()) {
        trim_end(s.drop_last())
    } else {
        s
    }
}

/// `str::trim`: whitespace removed from both ends.
pub open spec fn trim(s: Seq<char>) -> Seq<char> {
    trim_end(trim_start(s))
}

pub proof fn lemma_trim_start(s: Seq<char>, a: int)
    requires
        0 <= a <= s.len(),
        forall|k: int| 0 <= k < a ==> crate::path::is_white_space(#[trigger] s[k]),
        a == s.len() || !crate::path::is_white_space(s[a]),
    ensures
        trim_start(s) == s.subrange(a, s.len() as int),
    decreases a,
{
    if a > 0 {
        lemma_trim_start(s.drop_first(), a - 1);
        assert(s.drop_first().subrange(a - 1, s.len() - 1) =~= s.subrange(a, s.len() as int));
    } else {
        assert(s.subrange(0, s.len() as int) =~= s);
    }
}

pub proof fn lemma_trim_end(s: Seq<char>, z: int)
    requires
        0 <= z <= s.len(),
        forall|k: int| z <= k < s.len() ==> crate::path::is_white_space(#[trigger] s[k]),
        z == 0 || !crate::path::is_white_space(s[z - 1]),
    ensures
        trim_end(s) == s.subrange(0, z),
    decreases s.len() - z,
{
    if z < s.len() {
        lemma_trim_end(s.drop_last(), z);
        assert(s.drop_last().subrange(0, z) =~= s.subrange(0, z));
    } else {
        assert(s.subrange(0, z) =~= s);
    }
}

/// `str::trim`, on a string slice, as an owned string.
pub fn trim_owned(s: &str) -> (r: String)
    ensures
        r@ == trim(s@),
{
    let v = chars_of(s);
    let mut a: usize = 0;
    while a < v.len() && crate::path::is_whitespace(v[a])
        invariant
            0 <= a <= v.len(),
            forall|k: int| 0 <= k < a ==> crate::path::is_white_space(#[trigger] v@[k]),
        decreases v.len() - a,
    {
        a = a + 1;
    }
    proof {
        lemma_trim_start(v@, a as int);
    }
    let ghost t = v@.subrange(a as int, v.len() as int);
    let mut z: usize = v.len();
    while z > a && crate::path::is_whitespace(v[z - 1])
        invariant
            a <= z <= v.len(),
            forall|k: int| z <= k < v.len() ==> crate::path::is_white_space(#[trigger] v@[k]),
        decreases z,
    {
        z = z - 1;
    }
    proof {
        lemma_trim_end(t, z - a);
        assert(t.subrange(0, z - a) =~= v@.subrange(a as int, z as int));
    }
    let part = vstd::slice::slice_subrange(v.as_slice(), a, z);
    string_of(part)
}


/// What `str::to_lowercase` gives for a text: Unicode's full lowercase mapping.
pub uninterp spec fn lowercase(s: Seq<char>) -> Seq<char>;

/// ASCII's lowercase: `A`..`Z` to `a`..`z`, every other character as it is.
pub open spec fn ascii_lower(c: char) -> char {
    if 'A' <= c <= 'Z' {
        ((c as int) + 32) as char
    } else {
        c
    }
}

pub open spec fn is_ascii_text(s: Seq<char>) -> bool {
    forall|i: int| 0 <= i < s.len() ==> (#[trigger] s[i] as int) < 128
}

/// `str::to_lowercase`.
///
/// Trusted: the Unicode mapping is named rather than described; the contract
/// claims that the result is a function of the text and, for ASCII text, the
/// mapping that Unicode gives ASCII: `A`..`Z` to `a`..`z`, the rest unchanged.
#[verifier::external_body]
pub(crate) fn to_lower(s: &str) -> (r: String)
    ensures
        r@ == lowercase(s@),
        is_ascii_text(s@) ==> r@ == s@.map_values(|c: char| ascii_lower(c)),
{
    s.to_lowercase()
}

} // verus!
