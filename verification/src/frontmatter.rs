//! YAML frontmatter: split, never parsed and re-serialised.
//!
//! The frontmatter is a byte range, written back verbatim; a parsed view of it
//! never becomes the thing that gets written.
use vstd::prelude::*;
use vstd::utf8::*;
use crate::text::{lemma_after_ascii_boundary, lemma_ascii_boundary, sb, slice};

verus! {

broadcast use vstd::utf8::encode_utf8_valid_utf8;

/// The result of splitting a document into frontmatter and body.
#[derive(Debug, Clone, PartialEq, Eq)]
pub struct Split<'a> {
    /// The YAML between the delimiter lines, exactly as written.
    pub frontmatter: Option<&'a str>,
    /// Everything after the closing delimiter line.
    pub body: &'a str,
}

/// The document opens with a `---` line of its own.
pub open spec fn opens(t: Seq<u8>) -> bool {
    t.len() >= 4 && t[0] == 45u8 && t[1] == 45u8 && t[2] == 45u8 && t[3] == 10u8
}

/// Position `p` starts a line of the block that follows the opening line.
pub open spec fn line_start(t: Seq<u8>, p: int) -> bool {
    p == 4 || (4 < p <= t.len() && t[p - 1] == 10u8)
}

/// The line at `p` reads exactly `---` or `...`.
pub open spec fn closes_at(t: Seq<u8>, p: int) -> bool {
    &&& 0 <= p
    &&& p + 3 <= t.len()
    &&& ((t[p] == 45u8 && t[p + 1] == 45u8 && t[p + 2] == 45u8) || (t[p] == 46u8 && t[p + 1]
        == 46u8 && t[p + 2] == 46u8))
    &&& (p + 3 == t.len() || t[p + 3] == 10u8)
}

pub open spec fn closing_line_at(t: Seq<u8>, p: int) -> bool {
    line_start(t, p) && closes_at(t, p)
}

/// The first closing line at or after `p`.
pub open spec fn find_close(t: Seq<u8>, p: int) -> Option<int>
    decreases t.len() + 1 - p,
{
    if p < 4 || p > t.len() {
        None
    } else if closing_line_at(t, p) {
        Some(p)
    } else {
        find_close(t, p + 1)
    }
}

/// Where the body starts after a closing line at `p`.
pub open spec fn body_start(t: Seq<u8>, p: int) -> int {
    if p + 3 == t.len() {
        p + 3
    } else {
        p + 4
    }
}

/// Where the frontmatter closes, when the document has a terminated block.
pub open spec fn frontmatter_close(t: Seq<u8>) -> Option<int> {
    if opens(t) {
        find_close(t, 4)
    } else {
        None
    }
}

proof fn lemma_find_close_skips(t: Seq<u8>, p: int, q: int)
    requires
        4 <= p <= q <= t.len() + 1,
        forall|k: int| p <= k < q ==> !closing_line_at(t, k),
    ensures
        find_close(t, p) == find_close(t, q),
    decreases q - p,
{
    if p < q {
        lemma_find_close_skips(t, p + 1, q);
    }
}

proof fn lemma_find_close_bounds(t: Seq<u8>, p: int)
    ensures
        find_close(t, p) matches Some(c) ==> p <= c && closing_line_at(t, c),
    decreases t.len() + 1 - p,
{
    if !(p < 4 || p > t.len()) && !closing_line_at(t, p) {
        lemma_find_close_bounds(t, p + 1);
    }
}

fn closing_line(b: &[u8], p: usize) -> (r: bool)
    requires
        4 <= p <= b.len(),
    ensures
        r == closing_line_at(b@, p as int),
{
    let at_line = p == 4 || b[p - 1] == 10u8;
    at_line && b.len() - p >= 3 && ((b[p] == 45u8 && b[p + 1] == 45u8 && b[p + 2] == 45u8) || (
    b[p] == 46u8 && b[p + 1] == 46u8 && b[p + 2] == 46u8)) && (b.len() - p == 3 || b[p + 3]
        == 10u8)
}

/// Split a document already normalised to `\n` line endings.
///
/// Frontmatter is recognised only when the document opens with a `---` line
/// and a later line reads `---` or `...`; otherwise the whole text is body.
/// Whatever is split can be put back: the opening line, the frontmatter, the
/// closing line and the body concatenate to the original.
pub fn split(text: &str) -> (r: Split<'_>)
    ensures
        match frontmatter_close(sb(text)) {
            Some(p) => {
                &&& r.frontmatter matches Some(fm) && sb(fm) == sb(text).subrange(4, p)
                &&& sb(r.body) == sb(text).subrange(body_start(sb(text), p), sb(text).len() as int)
                &&& sb(text) == sb(text).subrange(0, 4) + sb(r.frontmatter->0) + sb(text).subrange(
                    p,
                    body_start(sb(text), p),
                ) + sb(r.body)
            },
            None => r.frontmatter is None && sb(r.body) == sb(text),
        },
{
    let ghost t = sb(text);
    let b = text.as_bytes();
    let none = Split { frontmatter: None, body: text };
    if !(b.len() >= 4 && b[0] == 45u8 && b[1] == 45u8 && b[2] == 45u8 && b[3] == 10u8) {
        return none;
    }
    let mut p: usize = 4;
    let mut found = false;
    proof {
        assert(find_close(t, t.len() + 1int) is None);
        assert(find_close(t, t.len() as int) is None);
    }
    while p < b.len()
        invariant_except_break
            !found,
            find_close(t, t.len() as int) is None,
            b@ == t,
            opens(t),
            4 <= p <= b.len(),
            find_close(t, 4) == find_close(t, p as int),
        ensures
            4 <= p <= b.len(),
            found ==> find_close(t, 4) == Some(p as int),
            !found ==> find_close(t, 4) is None,
        decreases b.len() - p,
    {
        if closing_line(b, p) {
            assert(find_close(t, p as int) == Some(p as int));
            found = true;
            break;
        }
        p = p + 1;
    }
    if !found {
        return none;
    }
    proof {
        lemma_find_close_bounds(t, 4);
        assert(closing_line_at(t, p as int));
    }
    let start = if b.len() - p == 3 {
        p + 3
    } else {
        p + 4
    };
    proof {
        assert(valid_utf8(t));
        lemma_after_ascii_boundary(t, 4);
        if p > 4 {
            lemma_after_ascii_boundary(t, p as int);
        }
        lemma_after_ascii_boundary(t, start as int);
        is_char_boundary_start_end_of_seq(t);
    }
    let yaml = slice(text, 4, p);
    let body = slice(text, start, b.len());
    proof {
        assert(t =~= t.subrange(0, 4) + sb(yaml) + t.subrange(p as int, start as int) + sb(body));
    }
    Split { frontmatter: Some(yaml), body }
}

proof fn lemma_find_close_first(t: Seq<u8>, p: int)
    ensures
        find_close(t, p) matches Some(c) ==> forall|k: int| p <= k < c ==> !closing_line_at(t, k),
    decreases t.len() + 1 - p,
{
    if !(p < 4 || p > t.len()) && !closing_line_at(t, p) {
        lemma_find_close_first(t, p + 1);
    }
}

/// Frontmatter holds no closing line: the block is closed by the first line
/// after the opening one that reads `---` or `...`, the frontmatter is empty
/// or ends with a newline, and the opening line, the frontmatter, the
/// closing line and the body put back together are the text.
pub proof fn law_frontmatter_holds_no_closing_line(t: Seq<u8>)
    ensures
        frontmatter_close(t) matches Some(p) ==> {
            &&& opens(t)
            &&& 4 <= p <= t.len()
            &&& closing_line_at(t, p)
            &&& (p == 4 || t[p - 1] == 10u8)
            &&& forall|k: int| 4 <= k < p ==> !closing_line_at(t, k)
            &&& t == t.subrange(0, 4) + t.subrange(4, p) + t.subrange(p, body_start(t, p)) + t.subrange(
                body_start(t, p),
                t.len() as int,
            )
        },
{
    if let Some(p) = frontmatter_close(t) {
        lemma_find_close_bounds(t, 4);
        lemma_find_close_first(t, 4);
        assert(t =~= t.subrange(0, 4) + t.subrange(4, p) + t.subrange(p, body_start(t, p)) + t.subrange(
            body_start(t, p),
            t.len() as int,
        ));
    }
}

} // verus!
