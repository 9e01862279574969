//! Scanner for Obsidian's non-CommonMark syntax: `[[wikilinks]]`, `![[embeds]]`
//! and `#tags`, run over the text of one already-parsed markdown node.
use vstd::prelude::*;
use vstd::utf8::*;
use crate::text::{char_at, first_char, lemma_after_ascii_boundary, lemma_ascii_boundary, lemma_char_at, last_char, sb, slice, trim, trim_owned, utf8_len, width_at};

verus! {

broadcast use vstd::utf8::encode_utf8_valid_utf8;

/// What a parsed link says.
pub struct LinkModel {
    pub target: Seq<char>,
    pub anchor: Option<Seq<char>>,
    pub alias: Option<Seq<char>>,
    pub embed: bool,
}

/// A parsed `[[target#anchor|alias]]` or `![[…]]`.
#[derive(Debug, Clone, PartialEq, Eq)]
pub struct WikiLink {
    /// The note linked to, without extension; empty for `[[#heading]]`.
    pub target: String,
    /// A heading or block id within the target.
    pub anchor: Option<String>,
    /// Display text from `|alias`.
    pub alias: Option<String>,
    /// True for `![[…]]`.
    pub embed: bool,
}

pub open spec fn opt_view(o: Option<String>) -> Option<Seq<char>> {
    match o {
        Some(s) => Some(s@),
        None => None,
    }
}

impl View for WikiLink {
    type V = LinkModel;

    open spec fn view(&self) -> LinkModel {
        LinkModel {
            target: self.target@,
            anchor: opt_view(self.anchor),
            alias: opt_view(self.alias),
            embed: self.embed,
        }
    }
}

/// What a reader sees: the alias, else the target, else the anchor.
pub open spec fn display_text(l: LinkModel) -> Seq<char> {
    match l.alias {
        Some(a) => a,
        None => if l.target.len() == 0 {
            match l.anchor {
                Some(a) => a,
                None => seq![],
            }
        } else {
            l.target
        },
    }
}

impl WikiLink {
    /// A copy of this link.
    pub fn clone_link(&self) -> (r: WikiLink)
        ensures
            r@ == self@,
    {
        WikiLink {
            target: self.target.clone(),
            anchor: match &self.anchor {
                Some(a) => Some(a.clone()),
                None => None,
            },
            alias: match &self.alias {
                Some(a) => Some(a.clone()),
                None => None,
            },
            embed: self.embed,
        }
    }

    pub fn display(&self) -> (r: &str)
        ensures
            r@ == display_text(self@),
    {
        if let Some(a) = &self.alias {
            return a.as_str();
        }
        if self.target.as_str().is_empty() {
            return match &self.anchor {
                Some(a) => a.as_str(),
                None => {
                    proof {
                        reveal_strlit("");
                    }
                    ""
                },
            };
        }
        self.target.as_str()
    }
}

pub enum ItemModel {
    Link(LinkModel),
    Tag(Seq<char>),
}

#[derive(Debug, Clone, PartialEq, Eq)]
pub enum Item {
    Link(WikiLink),
    Tag(String),
}

impl View for Item {
    type V = ItemModel;

    open spec fn view(&self) -> ItemModel {
        match self {
            Item::Link(l) => ItemModel::Link(l@),
            Item::Tag(t) => ItemModel::Tag(t@),
        }
    }
}

pub struct FoundModel {
    pub start: int,
    pub end: int,
    pub item: ItemModel,
}

/// An [`Item`] and the byte range it occupies in the scanned text.
#[derive(Debug, Clone, PartialEq, Eq)]
pub struct Found {
    pub start: usize,
    pub end: usize,
    pub item: Item,
}

impl View for Found {
    type V = FoundModel;

    open spec fn view(&self) -> FoundModel {
        FoundModel { start: self.start as int, end: self.end as int, item: self.item@ }
    }
}

/// The first `]]` at or after `p`.
pub open spec fn find_close_brackets(b: Seq<u8>, p: int) -> Option<int>
    decreases b.len() - p,
{
    if p < 0 || p + 1 >= b.len() {
        None
    } else if b[p] == 93u8 && b[p + 1] == 93u8 {
        Some(p)
    } else {
        find_close_brackets(b, p + 1)
    }
}

/// The first index of `x` in `s`, from `p` on.
pub open spec fn first_index_from(s: Seq<u8>, x: u8, p: int) -> Option<int>
    decreases s.len() - p,
{
    if p < 0 || p >= s.len() {
        None
    } else if s[p] == x {
        Some(p)
    } else {
        first_index_from(s, x, p + 1)
    }
}

pub open spec fn first_index(s: Seq<u8>, x: u8) -> Option<int> {
    first_index_from(s, x, 0)
}

pub open spec fn dec(s: Seq<u8>) -> Seq<char> {
    decode_utf8(s)
}

pub open spec fn nonempty(s: Seq<char>) -> Option<Seq<char>> {
    if s.len() == 0 {
        None
    } else {
        Some(s)
    }
}

/// The link parsed from the text inside `[[` and `]]`.
pub open spec fn link_from_inner(inner: Seq<u8>, embed: bool) -> Option<LinkModel> {
    if inner.contains(10u8) || inner.contains(91u8) || inner.contains(93u8) {
        None
    } else {
        let before = match first_index(inner, 124u8) {
            Some(k) => inner.take(k),
            None => inner,
        };
        let alias = match first_index(inner, 124u8) {
            Some(k) => Some(trim(dec(inner.subrange(k + 1, inner.len() as int)))),
            None => None,
        };
        let target = match first_index(before, 35u8) {
            Some(h) => trim(dec(before.take(h))),
            None => trim(dec(before)),
        };
        let anchor = match first_index(before, 35u8) {
            Some(h) => Some(trim(dec(before.subrange(h + 1, before.len() as int)))),
            None => None,
        };
        if target.len() == 0 && anchor is None {
            None
        } else {
            Some(
                LinkModel {
                    target,
                    anchor: match anchor {
                        Some(a) => nonempty(a),
                        None => None,
                    },
                    alias: match alias {
                        Some(a) => nonempty(a),
                        None => None,
                    },
                    embed,
                },
            )
        }
    }
}

/// The link whose text starts at `from`, and where its closing `]]` ends.
pub open spec fn link_at(b: Seq<u8>, from: int, embed: bool) -> Option<(LinkModel, int)> {
    match find_close_brackets(b, from) {
        Some(c) => match link_from_inner(b.subrange(from, c), embed) {
            Some(l) => Some((l, c + 2)),
            None => None,
        },
        None => None,
    }
}

/// `char::is_alphanumeric`: the Unicode Alphabetic or Numeric property.
pub uninterp spec fn is_alphanumeric(c: char) -> bool;

/// `char::is_alphanumeric`.
///
/// Trusted: the Unicode tables are named rather than restated; the contract
/// claims that the answer depends on the character alone and, for ASCII,
/// that exactly the letters and digits are alphanumeric.
#[verifier::external_body]
fn char_is_alphanumeric(c: char) -> (r: bool)
    ensures
        r == is_alphanumeric(c),
        (c as int) < 128 ==> (r <==> (('a' <= c <= 'z') || ('A' <= c <= 'Z') || ('0' <= c <= '9'))),
{
    c.is_alphanumeric()
}

pub open spec fn is_tag_char(c: char) -> bool {
    is_alphanumeric(c) || c == '_' || c == '-' || c == '/'
}

/// A `#` opens a tag only at the start or after a character that cannot be part of a word.
pub open spec fn tag_may_start(b: Seq<u8>, at: int) -> bool {
    at == 0 || {
        let p = dec(b.take(at)).last();
        !(is_alphanumeric(p) || p == '_' || p == '-' || p == '/' || p == '#')
    }
}

/// Bytes left from `i` on.
pub open spec fn remaining(b: Seq<u8>, i: int) -> nat {
    if i >= b.len() {
        0
    } else {
        (b.len() - i) as nat
    }
}

/// Where the run of tag characters starting at `j` ends.
pub open spec fn tag_end(b: Seq<u8>, j: int) -> int
    decreases remaining(b, j),
{
    if 0 <= j < b.len() && is_tag_char(char_at(b, j)) {
        proof {
            crate::text::lemma_width_positive(b, j);
        }
        tag_end(b, j + width_at(b, j))
    } else {
        j
    }
}

pub open spec fn all_ascii_digits(s: Seq<u8>) -> bool {
    forall|k: int| 0 <= k < s.len() ==> 48u8 <= #[trigger] s[k] <= 57u8
}

/// The tag whose name starts at `from`, and where it ends.
pub open spec fn tag_at(b: Seq<u8>, from: int) -> Option<(Seq<char>, int)> {
    let e = tag_end(b, from);
    let name = b.subrange(from, e);
    if name.len() == 0 || all_ascii_digits(name) || name[0] == 47u8 || name.last() == 47u8 {
        None
    } else {
        Some((dec(name), e))
    }
}

pub open spec fn embed_opens(b: Seq<u8>, i: int) -> bool {
    i + 2 < b.len() && b[i] == 33u8 && b[i + 1] == 91u8 && b[i + 2] == 91u8
}

pub open spec fn link_opens(b: Seq<u8>, i: int) -> bool {
    i + 1 < b.len() && b[i] == 91u8 && b[i + 1] == 91u8
}

pub proof fn lemma_find_close_after(b: Seq<u8>, p: int)
    ensures
        find_close_brackets(b, p) matches Some(c) ==> p <= c && c + 1 < b.len() && b[c] == 93u8
            && b[c + 1] == 93u8,
    decreases b.len() - p,
{
    if !(p < 0 || p + 1 >= b.len()) && !(b[p] == 93u8 && b[p + 1] == 93u8) {
        lemma_find_close_after(b, p + 1);
    }
}

pub proof fn lemma_tag_end_after(b: Seq<u8>, j: int)
    requires
        valid_utf8(b),
        0 <= j <= b.len(),
        is_char_boundary(b, j),
    ensures
        j <= tag_end(b, j) <= b.len(),
        is_char_boundary(b, tag_end(b, j)),
    decreases remaining(b, j),
{
    if 0 <= j < b.len() && is_tag_char(char_at(b, j)) {
        lemma_char_at(b, j);
        lemma_tag_end_after(b, j + width_at(b, j));
    }
}

pub proof fn lemma_tag_end_ge(b: Seq<u8>, j: int)
    ensures
        j <= tag_end(b, j),
    decreases remaining(b, j),
{
    if 0 <= j < b.len() && is_tag_char(char_at(b, j)) {
        crate::text::lemma_width_positive(b, j);
        lemma_tag_end_ge(b, j + width_at(b, j));
    }
}

/// Everything found from byte `i` on, in order.
pub open spec fn scan_from(b: Seq<u8>, i: int) -> Seq<FoundModel>
    decreases remaining(b, i),
{
    if i < 0 || i >= b.len() {
        seq![]
    } else if embed_opens(b, i) && link_at(b, i + 3, true) is Some {
        let (l, e) = link_at(b, i + 3, true)->0;
        proof {
            lemma_find_close_after(b, i + 3);
        }
        seq![FoundModel { start: i, end: e, item: ItemModel::Link(l) }] + scan_from(b, e)
    } else if link_opens(b, i) && link_at(b, i + 2, false) is Some {
        let (l, e) = link_at(b, i + 2, false)->0;
        proof {
            lemma_find_close_after(b, i + 2);
        }
        seq![FoundModel { start: i, end: e, item: ItemModel::Link(l) }] + scan_from(b, e)
    } else if b[i] == 35u8 && tag_may_start(b, i) && tag_at(b, i + 1) is Some {
        let (name, e) = tag_at(b, i + 1)->0;
        proof {
            lemma_tag_end_ge(b, i + 1);
        }
        seq![FoundModel { start: i, end: e, item: ItemModel::Tag(name) }] + scan_from(b, e)
    } else {
        proof {
            crate::text::lemma_width_positive(b, i);
        }
        scan_from(b, i + width_at(b, i))
    }
}


/// A string's characters are the decoding of its bytes.
pub proof fn lemma_chars_are_decoded(s: &str)
    ensures
        s@ == dec(sb(s)),
{
    encode_utf8_decode_utf8(s@);
}

fn contains_byte(s: &[u8], x: u8) -> (r: bool)
    ensures
        r == s@.contains(x),
{
    let mut i: usize = 0;
    while i < s.len()
        invariant
            0 <= i <= s.len(),
            forall|k: int| 0 <= k < i ==> s@[k] != x,
        decreases s.len() - i,
    {
        if s[i] == x {
            assert(s@[i as int] == x);
            return true;
        }
        i = i + 1;
    }
    false
}

pub fn find_first(s: &[u8], x: u8) -> (r: Option<usize>)
    ensures
        match first_index(s@, x) {
            Some(k) => r == Some(k as usize) && 0 <= k < s.len() && s@[k] == x,
            None => r is None,
        },
{
    let mut i: usize = 0;
    while i < s.len()
        invariant
            0 <= i <= s.len(),
            first_index_from(s@, x, 0) == first_index_from(s@, x, i as int),
        decreases s.len() - i,
    {
        if s[i] == x {
            return Some(i);
        }
        i = i + 1;
    }
    None
}

fn nonempty_string(s: String) -> (r: Option<String>)
    ensures
        opt_view(r) == nonempty(s@),
{
    if s.as_str().is_empty() {
        None
    } else {
        Some(s)
    }
}

/// Parse from just after the opening `[[`.
fn parse_link(text: &str, from: usize, embed: bool) -> (r: Option<(WikiLink, usize)>)
    requires
        from <= sb(text).len(),
        is_char_boundary(sb(text), from as int),
    ensures
        match link_at(sb(text), from as int, embed) {
            Some((l, e)) => r matches Some((w, end)) && w@ == l && end == e,
            None => r is None,
        },
{
    let b = text.as_bytes();
    let ghost t = b@;
    let mut c = from;
    while c < b.len() && c + 1 < b.len() && !(b[c] == 93u8 && b[c + 1] == 93u8)
        invariant
            b@ == t,
            from <= c <= b.len(),
            find_close_brackets(t, from as int) == find_close_brackets(t, c as int),
        decreases b.len() - c,
    {
        c = c + 1;
    }
    if !(c < b.len() && c + 1 < b.len()) {
        return None;
    }
    assert(find_close_brackets(t, from as int) == Some(c as int));
    proof {
        lemma_ascii_boundary(t, c as int);
    }
    let inner = slice(text, from, c);
    let ib = inner.as_bytes();
    assert(ib@ == t.subrange(from as int, c as int));
    if contains_byte(ib, 10u8) || contains_byte(ib, 91u8) || contains_byte(ib, 93u8) {
        return None;
    }
    let ghost ibs = ib@;
    proof {
        vstd::utf8::is_char_boundary_start_end_of_seq(ibs);
    }
    let (before, alias) = match find_first(ib, 124u8) {
        Some(k) => {
            proof {
                lemma_ascii_boundary(ibs, k as int);
                lemma_after_ascii_boundary(ibs, k + 1);
            }
            let head = slice(inner, 0, k);
            let tail = slice(inner, k + 1, ib.len());
            proof {
                assert(sb(head) =~= ibs.take(k as int));
                lemma_chars_are_decoded(tail);
            }
            (head, Some(trim_owned(tail)))
        },
        None => (inner, None),
    };
    let bb = before.as_bytes();
    let ghost bbs = bb@;
    proof {
        vstd::utf8::is_char_boundary_start_end_of_seq(bbs);
    }
    let (target, anchor) = match find_first(bb, 35u8) {
        Some(h) => {
            proof {
                lemma_ascii_boundary(bbs, h as int);
                lemma_after_ascii_boundary(bbs, h + 1);
            }
            let head = slice(before, 0, h);
            let tail = slice(before, h + 1, bb.len());
            proof {
                assert(sb(head) =~= bbs.take(h as int));
                lemma_chars_are_decoded(head);
                lemma_chars_are_decoded(tail);
            }
            (trim_owned(head), Some(trim_owned(tail)))
        },
        None => {
            proof {
                lemma_chars_are_decoded(before);
            }
            (trim_owned(before), None)
        },
    };
    if target.as_str().is_empty() && anchor.is_none() {
        return None;
    }
    let anchor = match anchor {
        Some(a) => nonempty_string(a),
        None => None,
    };
    let alias = match alias {
        Some(a) => nonempty_string(a),
        None => None,
    };
    Some((WikiLink { target, anchor, alias, embed }, c + 2))
}

/// Whether a `#` at `at` may open a tag.
fn tag_may_start_at(text: &str, at: usize) -> (r: bool)
    requires
        at <= sb(text).len(),
        is_char_boundary(sb(text), at as int),
    ensures
        r == tag_may_start(sb(text), at as int),
{
    if at == 0 {
        return true;
    }
    proof {
        vstd::utf8::is_char_boundary_start_end_of_seq(sb(text));
    }
    let before = slice(text, 0, at);
    proof {
        lemma_chars_are_decoded(before);
        assert(sb(before) =~= sb(text).take(at as int));
        assert(sb(before).len() > 0);
        if before@.len() == 0 {
            assert(sb(before) =~= Seq::<u8>::empty());
        }
    }
    match last_char(before) {
        Some(p) => !(char_is_alphanumeric(p) || p == '_' || p == '-' || p == '/' || p == '#'),
        None => true,
    }
}

fn all_digits(s: &[u8]) -> (r: bool)
    ensures
        r == all_ascii_digits(s@),
{
    let mut i: usize = 0;
    while i < s.len()
        invariant
            0 <= i <= s.len(),
            forall|k: int| 0 <= k < i ==> 48u8 <= #[trigger] s@[k] <= 57u8,
        decreases s.len() - i,
    {
        if !(48u8 <= s[i] && s[i] <= 57u8) {
            return false;
        }
        i = i + 1;
    }
    true
}

/// Parse a tag name from just after the `#`.
fn parse_tag(text: &str, from: usize) -> (r: Option<(String, usize)>)
    requires
        from <= sb(text).len(),
        is_char_boundary(sb(text), from as int),
    ensures
        match tag_at(sb(text), from as int) {
            Some((name, e)) => r matches Some((n, end)) && n@ == name && end == e,
            None => r is None,
        },
{
    let b = text.as_bytes();
    let ghost t = b@;
    let mut j = from;
    while j < b.len()
        invariant
            b@ == t,
            t == sb(text),
            valid_utf8(t),
            from <= j <= b.len(),
            is_char_boundary(t, j as int),
            tag_end(t, from as int) == tag_end(t, j as int),
        ensures
            from <= j <= b.len(),
            is_char_boundary(t, j as int),
            tag_end(t, from as int) == j,
        decreases b.len() - j,
    {
        proof {
            vstd::utf8::is_char_boundary_start_end_of_seq(t);
            lemma_char_at(t, j as int);
        }
        let rest = slice(text, j, b.len());
        proof {
            lemma_chars_are_decoded(rest);
            assert(sb(rest).len() > 0);
            if rest@.len() == 0 {
                assert(sb(rest) =~= Seq::<u8>::empty());
            }
        }
        let c = match first_char(rest) {
            Some(c) => c,
            None => break,
        };
        assert(c == char_at(t, j as int));
        if !(char_is_alphanumeric(c) || c == '_' || c == '-' || c == '/') {
            assert(tag_end(t, j as int) == j);
            break;
        }
        j = j + utf8_len(b[j]);
    }
    proof {
        vstd::utf8::is_char_boundary_start_end_of_seq(t);
    }
    let name = slice(text, from, j);
    let nb = name.as_bytes();
    if nb.len() == 0 || all_digits(nb) || nb[0] == 47u8 || nb[nb.len() - 1] == 47u8 {
        return None;
    }
    proof {
        lemma_chars_are_decoded(name);
    }
    Some((crate::text::own(name), j))
}

pub open spec fn models(s: Seq<Found>) -> Seq<FoundModel> {
    s.map_values(|f: Found| f@)
}

/// Find every wikilink, embed and tag in one text node, in order.
pub fn scan(text: &str) -> (r: Vec<Found>)
    ensures
        models(r@) == scan_from(sb(text), 0),
{
    let b = text.as_bytes();
    let ghost t = b@;
    let mut out: Vec<Found> = Vec::new();
    let mut i: usize = 0;
    proof {
        vstd::utf8::is_char_boundary_start_end_of_seq(t);
        assert(models(out@) + scan_from(t, 0) =~= scan_from(t, 0));
    }
    while i < b.len()
        invariant
            b@ == t,
            t == sb(text),
            valid_utf8(t),
            0 <= i <= b.len(),
            is_char_boundary(t, i as int),
            models(out@) + scan_from(t, i as int) == scan_from(t, 0),
        decreases b.len() - i,
    {
        let ghost before = out@;
        if b.len() - i > 2 && b[i] == 33u8 && b[i + 1] == 91u8 && b[i + 2] == 91u8 {
            proof {
                lemma_after_ascii_boundary(t, i + 3);
            }
            if let Some((link, end)) = parse_link(text, i + 3, true) {
                proof {
                    lemma_find_close_after(t, i + 3);
                    lemma_after_ascii_boundary(t, end as int);
                }
                let f = Found { start: i, end, item: Item::Link(link) };
                out.push(f);
                proof {
                    assert(models(out@) =~= models(before).push(f@));
                    assert(models(out@) + scan_from(t, end as int) =~= models(before) + scan_from(
                        t,
                        i as int,
                    ));
                }
                i = end;
                continue;
            }
        }
        if b.len() - i > 1 && b[i] == 91u8 && b[i + 1] == 91u8 {
            proof {
                lemma_after_ascii_boundary(t, i + 2);
            }
            if let Some((link, end)) = parse_link(text, i + 2, false) {
                proof {
                    lemma_find_close_after(t, i + 2);
                    lemma_after_ascii_boundary(t, end as int);
                }
                let f = Found { start: i, end, item: Item::Link(link) };
                out.push(f);
                proof {
                    assert(models(out@) =~= models(before).push(f@));
                    assert(models(out@) + scan_from(t, end as int) =~= models(before) + scan_from(
                        t,
                        i as int,
                    ));
                }
                i = end;
                continue;
            }
        }
        if b[i] == 35u8 && tag_may_start_at(text, i) {
            proof {
                lemma_after_ascii_boundary(t, i + 1);
            }
            if let Some((name, end)) = parse_tag(text, i + 1) {
                proof {
                    lemma_tag_end_after(t, i + 1);
                }
                let f = Found { start: i, end, item: Item::Tag(name) };
                out.push(f);
                proof {
                    assert(models(out@) =~= models(before).push(f@));
                    assert(models(out@) + scan_from(t, end as int) =~= models(before) + scan_from(
                        t,
                        i as int,
                    ));
                }
                i = end;
                continue;
            }
        }
        proof {
            lemma_char_at(t, i as int);
        }
        i = i + utf8_len(b[i]);
    }
    proof {
        assert(scan_from(t, i as int) == Seq::<FoundModel>::empty());
        assert(models(out@) + scan_from(t, i as int) =~= models(out@));
    }
    out
}


/// The text a found item occupies is the syntax that produced it.
pub open spec fn syntax_at(b: Seq<u8>, f: FoundModel) -> bool {
    match f.item {
        ItemModel::Link(l) => {
            &&& b[f.end - 2] == 93u8 && b[f.end - 1] == 93u8
            &&& if l.embed {
                b[f.start] == 33u8 && b[f.start + 1] == 91u8 && b[f.start + 2] == 91u8
            } else {
                b[f.start] == 91u8 && b[f.start + 1] == 91u8
            }
        },
        ItemModel::Tag(_) => b[f.start] == 35u8,
    }
}

/// Every range lies inside the text on character boundaries, holds the syntax
/// it was found from, and the ranges come in order without overlapping.
pub open spec fn ranges_exact(b: Seq<u8>, s: Seq<FoundModel>, lo: int) -> bool {
    &&& forall|k: int|
        0 <= k < s.len() ==> {
            &&& lo <= #[trigger] s[k].start < s[k].end <= b.len()
            &&& is_char_boundary(b, s[k].start)
            &&& is_char_boundary(b, s[k].end)
            &&& syntax_at(b, s[k])
        }
    &&& forall|k: int| 0 <= k < s.len() - 1 ==> #[trigger] s[k].end <= s[k + 1].start
}

proof fn lemma_link_shape(b: Seq<u8>, from: int, embed: bool)
    requires
        link_at(b, from, embed) is Some,
    ensures
        link_at(b, from, embed) matches Some((l, e)) ==> l.embed == embed && from + 2 <= e
            <= b.len() && b[e - 2] == 93u8 && b[e - 1] == 93u8,
{
    lemma_find_close_after(b, from);
}

proof fn lemma_scan_ranges(b: Seq<u8>, i: int)
    requires
        valid_utf8(b),
        0 <= i <= b.len(),
        is_char_boundary(b, i),
    ensures
        ranges_exact(b, scan_from(b, i), i),
    decreases remaining(b, i),
{
    let s = scan_from(b, i);
    if i >= b.len() {
    } else if embed_opens(b, i) && link_at(b, i + 3, true) is Some {
        lemma_link_shape(b, i + 3, true);
        let (l, e) = link_at(b, i + 3, true)->0;
        lemma_after_ascii_boundary(b, e);
        lemma_scan_ranges(b, e);
        let rest = scan_from(b, e);
        assert(s == seq![s[0]] + rest);
        assert forall|k: int| 0 <= k < s.len() - 1 implies #[trigger] s[k].end <= s[k + 1].start by {
            if k > 0 {
                assert(s[k] == rest[k - 1]);
            }
        }
        assert forall|k: int| 0 <= k < s.len() implies {
            &&& i <= #[trigger] s[k].start < s[k].end <= b.len()
            &&& is_char_boundary(b, s[k].start)
            &&& is_char_boundary(b, s[k].end)
            &&& syntax_at(b, s[k])
        } by {
            if k > 0 {
                assert(s[k] == rest[k - 1]);
            }
        }
    } else if link_opens(b, i) && link_at(b, i + 2, false) is Some {
        lemma_link_shape(b, i + 2, false);
        let (l, e) = link_at(b, i + 2, false)->0;
        lemma_after_ascii_boundary(b, e);
        lemma_scan_ranges(b, e);
        let rest = scan_from(b, e);
        assert(s == seq![s[0]] + rest);
        assert forall|k: int| 0 <= k < s.len() - 1 implies #[trigger] s[k].end <= s[k + 1].start by {
            if k > 0 {
                assert(s[k] == rest[k - 1]);
            }
        }
        assert forall|k: int| 0 <= k < s.len() implies {
            &&& i <= #[trigger] s[k].start < s[k].end <= b.len()
            &&& is_char_boundary(b, s[k].start)
            &&& is_char_boundary(b, s[k].end)
            &&& syntax_at(b, s[k])
        } by {
            if k > 0 {
                assert(s[k] == rest[k - 1]);
            }
        }
    } else if b[i] == 35u8 && tag_may_start(b, i) && tag_at(b, i + 1) is Some {
        lemma_after_ascii_boundary(b, i + 1);
        lemma_tag_end_after(b, i + 1);
        let (name, e) = tag_at(b, i + 1)->0;
        lemma_scan_ranges(b, e);
        let rest = scan_from(b, e);
        assert(s == seq![s[0]] + rest);
        assert forall|k: int| 0 <= k < s.len() - 1 implies #[trigger] s[k].end <= s[k + 1].start by {
            if k > 0 {
                assert(s[k] == rest[k - 1]);
            }
        }
        assert forall|k: int| 0 <= k < s.len() implies {
            &&& i <= #[trigger] s[k].start < s[k].end <= b.len()
            &&& is_char_boundary(b, s[k].start)
            &&& is_char_boundary(b, s[k].end)
            &&& syntax_at(b, s[k])
        } by {
            if k > 0 {
                assert(s[k] == rest[k - 1]);
            }
        }
    } else {
        lemma_char_at(b, i);
        lemma_scan_ranges(b, i + width_at(b, i));
    }
}

/// Byte ranges are exact, so replacing them cannot drift: every found item
/// lies on character boundaries inside the text, spans exactly the `[[…]]`,
/// `![[…]]` or `#tag` it was read from, and items come in order, disjoint.
pub proof fn law_found_ranges_are_exact(text: &str)
    ensures
        ranges_exact(sb(text), scan_from(sb(text), 0), 0),
{
    vstd::utf8::is_char_boundary_start_end_of_seq(sb(text));
    lemma_scan_ranges(sb(text), 0);
}

} // verus!
