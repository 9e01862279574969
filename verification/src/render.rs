//! Rendering a note: a function from note text to HTML plus what the note
//! links to, embeds and is tagged with, and its outline. comrak parses the
//! body and writes the HTML; which text nodes are rewritten, into what, and
//! what is collected on the way is decided here. Raw HTML in a note is
//! escaped, not emitted.
//!
//! Wikilinks become links with an `arc://` scheme rather than raw HTML, so
//! escaping stays on. Names are percent-encoded so a hostile note name cannot
//! break out of the `href`. Tags are collected once each, case-insensitively,
//! keeping the first spelling.
use vstd::prelude::*;
use vstd::utf8::*;
use crate::path::eq_ignore_ascii_case;
use crate::chars::trimmed;
use crate::text::{chars_of, ob, push_chars, sb, slice, string_of, trim};
use crate::wikilink::scan;
use comrak::arena_tree::NodeEdge;
use comrak::nodes::{NodeLink, NodeValue};
use crate::wikilink::{display_text, models, ranges_exact, Found, Item, ItemModel, LinkModel, WikiLink};

verus! {

broadcast use vstd::utf8::encode_utf8_valid_utf8;

/// URL scheme the UI intercepts: a vault-internal destination.
pub const SCHEME: &'static str = "arc://";

/// A heading, for the outline and for resolving `[[note#anchor]]`.
#[derive(Debug, Clone, PartialEq, Eq)]
pub struct Heading {
    /// 1-6.
    pub level: u8,
    /// The heading's text with markdown syntax removed.
    pub text: String,
    /// 1-based line in the body, after any frontmatter.
    pub line: usize,
}

/// The result of rendering one note.
#[derive(Debug, Clone, PartialEq, Eq)]
pub struct RenderedNote {
    pub html: String,
    /// Raw YAML, exactly as written.
    pub frontmatter: Option<String>,
    /// `[[wikilinks]]`, in document order, excluding embeds.
    pub links: Vec<WikiLink>,
    /// `![[embeds]]`, in document order.
    pub embeds: Vec<WikiLink>,
    /// Tag names without `#`, in document order, deduplicated.
    pub tags: Vec<String>,
    /// Headings, in document order.
    pub headings: Vec<Heading>,
}

impl RenderedNote {
    /// Nothing rendered yet.
    pub fn empty() -> (r: RenderedNote)
        ensures
            r.html@.len() == 0,
            r.frontmatter is None,
            r.links@.len() == 0,
            r.embeds@.len() == 0,
            r.tags@.len() == 0,
            r.headings@.len() == 0,
    {
        RenderedNote {
            html: String::new(),
            frontmatter: None,
            links: Vec::new(),
            embeds: Vec::new(),
            tags: Vec::new(),
            headings: Vec::new(),
        }
    }
}

/// Bytes left as they are in a URL: unreserved characters and `/`.
pub open spec fn is_url_safe(x: u8) -> bool {
    (65u8 <= x <= 90u8) || (97u8 <= x <= 122u8) || (48u8 <= x <= 57u8) || x == 45u8 || x == 95u8
        || x == 46u8 || x == 126u8 || x == 47u8
}

pub open spec fn hex_digit(n: u8) -> char {
    if n < 10 {
        (48 + n) as char
    } else {
        (55 + n) as char
    }
}

/// Percent-encoding of every byte that is not URL-safe, as `%XX` in upper case.
pub open spec fn pct_spec(b: Seq<u8>) -> Seq<char>
    decreases b.len(),
{
    if b.len() == 0 {
        seq![]
    } else {
        let x = b.last();
        pct_spec(b.drop_last()) + if is_url_safe(x) {
            seq![x as char]
        } else {
            seq!['%', hex_digit(x / 16), hex_digit(x % 16)]
        }
    }
}

fn hex(n: u8) -> (r: char)
    requires
        n < 16,
    ensures
        r == hex_digit(n),
{
    if n < 10 {
        (48u8 + n) as char
    } else {
        (55u8 + n) as char
    }
}

/// Percent-encode everything that is not unreserved.
pub fn pct(s: &str) -> (r: String)
    ensures
        r@ == pct_spec(sb(s)),
{
    let b = s.as_bytes();
    let mut out: Vec<char> = Vec::new();
    let mut i: usize = 0;
    while i < b.len()
        invariant
            0 <= i <= b.len(),
            out@ == pct_spec(b@.take(i as int)),
        decreases b.len() - i,
    {
        let x = b[i];
        assert(b@.take(i + 1).drop_last() =~= b@.take(i as int));
        if (65u8 <= x && x <= 90u8) || (97u8 <= x && x <= 122u8) || (48u8 <= x && x <= 57u8) || x
            == 45u8 || x == 95u8 || x == 46u8 || x == 126u8 || x == 47u8 {
            out.push(x as char);
        } else {
            out.push('%');
            out.push(hex(x / 16));
            out.push(hex(x % 16));
        }
        i = i + 1;
        assert(out@ =~= pct_spec(b@.take(i as int)));
    }
    assert(b@.take(b.len() as int) =~= b@);
    string_of(out.as_slice())
}

pub open spec fn scheme() -> Seq<char> {
    seq!['a', 'r', 'c', ':', '/', '/']
}

/// Where a wikilink points: `arc://note/<target>` or `arc://embed/<target>`,
/// then `#<anchor>` when there is one, each percent-encoded.
pub open spec fn link_url_spec(l: LinkModel) -> Seq<char> {
    scheme() + (if l.embed {
        seq!['e', 'm', 'b', 'e', 'd']
    } else {
        seq!['n', 'o', 't', 'e']
    }) + seq!['/'] + pct_spec(encode_utf8(l.target)) + match l.anchor {
        Some(a) => seq!['#'] + pct_spec(encode_utf8(a)),
        None => seq![],
    }
}

/// Where a tag points: `arc://tag/<name>`.
pub open spec fn tag_url_spec(name: Seq<char>) -> Seq<char> {
    scheme() + seq!['t', 'a', 'g', '/'] + pct_spec(encode_utf8(name))
}

pub fn link_url(link: &WikiLink) -> (r: String)
    ensures
        r@ == link_url_spec(link@),
{
    let mut url = String::new();
    proof {
        reveal_strlit("arc://");
        reveal_strlit("embed/");
        reveal_strlit("note/");
        reveal_strlit("#");
    }
    push_chars(&mut url, "arc://");
    if link.embed {
        push_chars(&mut url, "embed/");
    } else {
        push_chars(&mut url, "note/");
    }
    let target = pct(link.target.as_str());
    push_chars(&mut url, target.as_str());
    if let Some(anchor) = &link.anchor {
        push_chars(&mut url, "#");
        let a = pct(anchor.as_str());
        push_chars(&mut url, a.as_str());
    }
    assert(url@ =~= link_url_spec(link@));
    url
}

pub fn tag_url(name: &str) -> (r: String)
    ensures
        r@ == tag_url_spec(name@),
{
    let mut url = String::new();
    proof {
        reveal_strlit("arc://tag/");
    }
    push_chars(&mut url, "arc://tag/");
    let n = pct(name);
    push_chars(&mut url, n.as_str());
    assert(url@ =~= tag_url_spec(name@));
    url
}

pub open spec fn tag_views(tags: Seq<String>) -> Seq<Seq<char>> {
    tags.map_values(|t: String| t@)
}

/// Whether a tag is already in the list, ignoring ASCII case.
pub open spec fn has_tag(tags: Seq<Seq<char>>, name: Seq<char>) -> bool {
    exists|k: int|
        0 <= k < tags.len() && eq_ignore_ascii_case(encode_utf8(#[trigger] tags[k]), encode_utf8(name))
}

fn eq_ic(a: &[u8], b: &[u8]) -> (r: bool)
    ensures
        r == eq_ignore_ascii_case(a@, b@),
{
    if a.len() != b.len() {
        return false;
    }
    let mut i: usize = 0;
    while i < a.len()
        invariant
            a.len() == b.len(),
            0 <= i <= a.len(),
            forall|k: int|
                0 <= k < i ==> crate::path::ascii_lower_byte(a@[k]) == crate::path::ascii_lower_byte(
                    #[trigger] b@[k],
                ),
        decreases a.len() - i,
    {
        let x = if 65 <= a[i] && a[i] <= 90 {
            a[i] + 32
        } else {
            a[i]
        };
        let y = if 65 <= b[i] && b[i] <= 90 {
            b[i] + 32
        } else {
            b[i]
        };
        if x != y {
            return false;
        }
        i = i + 1;
    }
    true
}

/// Record a tag unless one spelled the same up to ASCII case is already there.
pub fn add_tag(tags: &mut Vec<String>, name: &str)
    ensures
        tag_views(final(tags)@) == if has_tag(tag_views(old(tags)@), name@) {
            tag_views(old(tags)@)
        } else {
            tag_views(old(tags)@).push(name@)
        },
{
    let ghost before = tag_views(tags@);
    let mut i: usize = 0;
    while i < tags.len()
        invariant
            tags@ == old(tags)@,
            before == tag_views(tags@),
            0 <= i <= tags.len(),
            forall|k: int|
                0 <= k < i ==> !eq_ignore_ascii_case(encode_utf8(#[trigger] before[k]), encode_utf8(name@)),
        decreases tags.len() - i,
    {
        if eq_ic(tags[i].as_str().as_bytes(), name.as_bytes()) {
            assert(before[i as int] == tags@[i as int]@);
            return;
        }
        assert(before[i as int] == tags@[i as int]@);
        i = i + 1;
    }
    tags.push(crate::text::own(name));
    assert(tag_views(tags@) =~= before.push(name@));
}


/// One piece of a rewritten text node.
pub enum PieceModel {
    Text(Seq<char>),
    Link { url: Seq<char>, label: Seq<char> },
}

/// What a text node containing wikilinks or tags is rewritten into: plain
/// text, interleaved with links.
#[derive(Debug, Clone, PartialEq, Eq)]
pub enum Piece {
    Text(String),
    Link { url: String, label: String },
}

impl View for Piece {
    type V = PieceModel;

    open spec fn view(&self) -> PieceModel {
        match self {
            Piece::Text(t) => PieceModel::Text(t@),
            Piece::Link { url, label } => PieceModel::Link { url: url@, label: label@ },
        }
    }
}

pub open spec fn piece_views(s: Seq<Piece>) -> Seq<PieceModel> {
    s.map_values(|p: Piece| p@)
}

/// The link a found item becomes.
pub open spec fn replacement(item: ItemModel) -> PieceModel {
    match item {
        ItemModel::Link(l) => PieceModel::Link { url: link_url_spec(l), label: display_text(l) },
        ItemModel::Tag(name) => PieceModel::Link {
            url: tag_url_spec(name),
            label: seq!['#'] + name,
        },
    }
}

/// Plain text between `from` and `to`, when there is any.
pub open spec fn gap(b: Seq<u8>, from: int, to: int) -> Seq<PieceModel> {
    if to > from {
        seq![PieceModel::Text(decode_utf8(b.subrange(from, to)))]
    } else {
        seq![]
    }
}

pub open spec fn cursor(fs: Seq<crate::wikilink::FoundModel>, k: int) -> int {
    if k <= 0 {
        0
    } else {
        fs[k - 1].end
    }
}

/// The pieces for the first `k` found items.
pub open spec fn pieces_upto(b: Seq<u8>, fs: Seq<crate::wikilink::FoundModel>, k: int) -> Seq<PieceModel>
    decreases k,
{
    if k <= 0 {
        seq![]
    } else {
        pieces_upto(b, fs, k - 1) + gap(b, cursor(fs, k - 1), fs[k - 1].start) + seq![
            replacement(fs[k - 1].item),
        ]
    }
}

/// The whole rewrite of a text node.
pub open spec fn rewrite_spec(b: Seq<u8>, fs: Seq<crate::wikilink::FoundModel>) -> Seq<PieceModel> {
    pieces_upto(b, fs, fs.len() as int) + gap(b, cursor(fs, fs.len() as int), b.len() as int)
}

/// Links (not embeds) among the first `k` found items.
pub open spec fn links_upto(fs: Seq<crate::wikilink::FoundModel>, k: int, embeds: bool) -> Seq<LinkModel>
    decreases k,
{
    if k <= 0 {
        seq![]
    } else {
        match fs[k - 1].item {
            ItemModel::Link(l) => if l.embed == embeds {
                links_upto(fs, k - 1, embeds).push(l)
            } else {
                links_upto(fs, k - 1, embeds)
            },
            ItemModel::Tag(_) => links_upto(fs, k - 1, embeds),
        }
    }
}

/// Tags after recording the first `k` found items into `start`.
pub open spec fn tags_upto(start: Seq<Seq<char>>, fs: Seq<crate::wikilink::FoundModel>, k: int) -> Seq<Seq<char>>
    decreases k,
{
    if k <= 0 {
        start
    } else {
        let t = tags_upto(start, fs, k - 1);
        match fs[k - 1].item {
            ItemModel::Tag(name) => if has_tag(t, name) {
                t
            } else {
                t.push(name)
            },
            ItemModel::Link(_) => t,
        }
    }
}

pub open spec fn link_views(s: Seq<WikiLink>) -> Seq<LinkModel> {
    s.map_values(|l: WikiLink| l@)
}

fn text_piece(literal: &str, from: usize, to: usize) -> (r: Piece)
    requires
        from <= to <= sb(literal).len(),
        is_char_boundary(sb(literal), from as int),
        is_char_boundary(sb(literal), to as int),
    ensures
        r@ == PieceModel::Text(decode_utf8(sb(literal).subrange(from as int, to as int))),
{
    let part = slice(literal, from, to);
    proof {
        crate::wikilink::lemma_chars_are_decoded(part);
    }
    Piece::Text(crate::text::own(part))
}

/// Replace one text node's found items with links, recording links, embeds
/// and tags into `out` as they go by.
pub fn rewrite(literal: &str, found: &Vec<Found>, out: &mut RenderedNote) -> (r: Vec<Piece>)
    requires
        ranges_exact(sb(literal), models(found@), 0),
    ensures
        piece_views(r@) == rewrite_spec(sb(literal), models(found@)),
        link_views(final(out).links@) == link_views(old(out).links@) + links_upto(models(found@), found@.len() as int, false),
        link_views(final(out).embeds@) == link_views(old(out).embeds@) + links_upto(models(found@), found@.len() as int, true),
        tag_views(final(out).tags@) == tags_upto(tag_views(old(out).tags@), models(found@), found@.len() as int),
        final(out).html == old(out).html,
        final(out).headings == old(out).headings,
        final(out).frontmatter == old(out).frontmatter,
{
    let ghost b = sb(literal);
    let ghost fs = models(found@);
    let n = found.len();
    let mut pieces: Vec<Piece> = Vec::new();
    let mut cur: usize = 0;
    let mut k: usize = 0;
    proof {
        vstd::utf8::is_char_boundary_start_end_of_seq(b);
    }
    while k < n
        invariant
            n == found@.len(),
            fs == models(found@),
            b == sb(literal),
            ranges_exact(b, fs, 0),
            0 <= k <= n,
            cur == cursor(fs, k as int),
            cur <= b.len(),
            is_char_boundary(b, cur as int),
            piece_views(pieces@) == pieces_upto(b, fs, k as int),
            link_views(out.links@) == link_views(old(out).links@) + links_upto(fs, k as int, false),
            link_views(out.embeds@) == link_views(old(out).embeds@) + links_upto(fs, k as int, true),
            tag_views(out.tags@) == tags_upto(tag_views(old(out).tags@), fs, k as int),
            out.html == old(out).html,
            out.headings == old(out).headings,
            out.frontmatter == old(out).frontmatter,
            k > 0 ==> cur == fs[k - 1].end,
        decreases n - k,
    {
        let f = &found[k];
        assert(fs[k as int] == f@);
        assert(0 <= fs[k as int].start < fs[k as int].end <= b.len());
        assert(is_char_boundary(b, fs[k as int].start));
        assert(is_char_boundary(b, fs[k as int].end));
        proof {
            if k > 0 {
                assert(fs[k - 1].end <= fs[k as int].start);
            }
        }
        let ghost before = piece_views(pieces@);
        if f.start > cur {
            let t = text_piece(literal, cur, f.start);
            pieces.push(t);
            assert(piece_views(pieces@) =~= before + gap(b, cur as int, fs[k as int].start));
        } else {
            assert(piece_views(pieces@) =~= before + gap(b, cur as int, fs[k as int].start));
        }
        let ghost mid = piece_views(pieces@);
        let rep = match &f.item {
            Item::Link(link) => {
                let url = link_url(link);
                let label = crate::text::own(link.display());
                if link.embed {
                    let ghost e0 = link_views(out.embeds@);
                    out.embeds.push(link.clone_link());
                    assert(link_views(out.embeds@) =~= e0.push(link@));
                } else {
                    let ghost l0 = link_views(out.links@);
                    out.links.push(link.clone_link());
                    assert(link_views(out.links@) =~= l0.push(link@));
                }
                Piece::Link { url, label }
            },
            Item::Tag(name) => {
                add_tag(&mut out.tags, name.as_str());
                let url = tag_url(name.as_str());
                let mut label = String::new();
                proof {
                    reveal_strlit("#");
                }
                push_chars(&mut label, "#");
                push_chars(&mut label, name.as_str());
                assert(label@ =~= seq!['#'] + name@);
                Piece::Link { url, label }
            },
        };
        assert(rep@ == replacement(fs[k as int].item));
        pieces.push(rep);
        proof {
            assert(piece_views(pieces@) =~= mid.push(rep@));
            assert(piece_views(pieces@) =~= before + gap(b, cur as int, fs[k as int].start) + seq![
                replacement(fs[k as int].item),
            ]);
        }
        cur = f.end;
        k = k + 1;
    }
    if cur < literal.as_bytes().len() {
        let t = text_piece(literal, cur, literal.as_bytes().len());
        let ghost before = piece_views(pieces@);
        pieces.push(t);
        assert(piece_views(pieces@) =~= before + gap(b, cur as int, b.len() as int));
    } else {
        assert(piece_views(pieces@) =~= piece_views(pieces@) + gap(b, cur as int, b.len() as int));
    }
    pieces
}

/// No two tags in a list are the same up to ASCII case.
pub open spec fn distinct_tags(ts: Seq<Seq<char>>) -> bool {
    forall|i: int, j: int|
        0 <= i < j < ts.len() ==> !eq_ignore_ascii_case(
            encode_utf8(#[trigger] ts[i]),
            encode_utf8(#[trigger] ts[j]),
        )
}

/// Recording a tag never makes the list repeat one: `#Rust` and `#rust` are
/// one tag, spelled as first written.
pub proof fn law_recording_a_tag_keeps_the_list_distinct(ts: Seq<Seq<char>>, name: Seq<char>)
    requires
        distinct_tags(ts),
    ensures
        distinct_tags(if has_tag(ts, name) {
            ts
        } else {
            ts.push(name)
        }),
{
    if !has_tag(ts, name) {
        let n = ts.push(name);
        assert forall|i: int, j: int| 0 <= i < j < n.len() implies !eq_ignore_ascii_case(
            encode_utf8(#[trigger] n[i]),
            encode_utf8(#[trigger] n[j]),
        ) by {
            if j == ts.len() {
                assert(n[i] == ts[i]);
                if eq_ignore_ascii_case(encode_utf8(n[i]), encode_utf8(n[j])) {
                    assert(eq_ignore_ascii_case(encode_utf8(ts[i]), encode_utf8(name)));
                }
            } else {
                assert(n[i] == ts[i] && n[j] == ts[j]);
            }
        }
    }
}

/// Percent-encoding leaves nothing that could end an attribute or start a
/// tag: every character is URL-safe, `%`, or an upper-case hex digit.
pub proof fn law_percent_encoding_cannot_break_out_of_an_href(b: Seq<u8>)
    ensures
        forall|i: int|
            0 <= i < pct_spec(b).len() ==> {
                let c = #[trigger] pct_spec(b)[i];
                c != '"' && c != '<' && c != '>' && c != '\'' && c != ' '
            },
    decreases b.len(),
{
    if b.len() > 0 {
        law_percent_encoding_cannot_break_out_of_an_href(b.drop_last());
        let x = b.last();
        let tail: Seq<char> = if is_url_safe(x) {
            seq![x as char]
        } else {
            seq!['%', hex_digit(x / 16), hex_digit(x % 16)]
        };
        let p = pct_spec(b.drop_last());
        assert(pct_spec(b) == p + tail);
        assert forall|i: int| 0 <= i < pct_spec(b).len() implies {
            let c = #[trigger] pct_spec(b)[i];
            c != '"' && c != '<' && c != '>' && c != '\'' && c != ' '
        } by {
            if i < p.len() {
                assert(pct_spec(b)[i] == p[i]);
            } else {
                assert(pct_spec(b)[i] == tail[i - p.len()]);
            }
        }
    }
}

// ── the note, through comrak ────────────────────────────────────────────────

/// How notes are parsed and written out, as plain values: the extensions
/// Obsidian notes use, a single newline as a line break, and raw HTML
/// escaped rather than emitted or dropped.
#[derive(Debug, Clone, Copy, PartialEq, Eq, Structural)]
pub struct MarkdownOptions {
    pub table: bool,
    pub tasklist: bool,
    pub strikethrough: bool,
    pub footnotes: bool,
    pub autolink: bool,
    pub hardbreaks: bool,
    /// Show raw HTML as literal text rather than dropping it. Raw HTML is
    /// never emitted as written: comrak's option for that is left off.
    pub escape: bool,
}

pub open spec fn note_options() -> MarkdownOptions {
    MarkdownOptions {
        table: true,
        tasklist: true,
        strikethrough: true,
        footnotes: true,
        autolink: true,
        hardbreaks: true,
        escape: true,
    }
}

/// The options every note is rendered with. Raw HTML is escaped, never
/// emitted: a note containing `<script>` must not run in the browser of
/// anyone the vault is served to, and escaping keeps the writer's own text
/// visible instead of dropping it.
pub fn options() -> (r: MarkdownOptions)
    ensures
        r == note_options(),
{
    MarkdownOptions {
        table: true,
        tasklist: true,
        strikethrough: true,
        footnotes: true,
        autolink: true,
        hardbreaks: true,
        escape: true,
    }
}

#[verifier::external_type_specification]
#[verifier::external_body]
pub struct ExComrakOptions<'c>(comrak::Options<'c>);

/// Markdown options, as plain values and as comrak takes them.
pub struct NoteFormat {
    pub plain: MarkdownOptions,
    comrak: comrak::Options<'static>,
}

/// The options in comrak's form: comrak's defaults, with each plain option
/// set on its field of `Options::extension` or `Options::render`.
///
/// Trusted: the contract claims only that the plain options are kept beside
/// the comrak ones the body sets from them.
#[verifier::external_body]
fn note_format(o: MarkdownOptions) -> (r: NoteFormat)
    ensures
        r.plain == o,
{
    let mut c = comrak::Options::default();
    c.extension.table = o.table;
    c.extension.tasklist = o.tasklist;
    c.extension.strikethrough = o.strikethrough;
    c.extension.footnotes = o.footnotes;
    c.extension.autolink = o.autolink;
    c.render.hardbreaks = o.hardbreaks;
    c.render.escape = o.escape;
    NoteFormat { plain: o, comrak: c }
}

/// What the rendering reads of a node of the parsed document.
#[derive(Debug, Clone, PartialEq, Eq)]
pub enum MdKind {
    Heading(u8),
    Text(String),
    Code(String),
    SoftBreak,
    LineBreak,
    Link,
    Other,
}

/// The parsed document, walked in document order: each node opened, with
/// what it is and the line it starts on, and closed after its children.
#[derive(Debug, Clone, PartialEq, Eq)]
pub enum MdEvent {
    Open(MdKind, usize),
    Close,
}

pub enum KindModel {
    Heading(u8),
    Text(Seq<char>),
    Code(Seq<char>),
    SoftBreak,
    LineBreak,
    Link,
    Other,
}

pub enum EventModel {
    Open(KindModel, usize),
    Close,
}

impl View for MdKind {
    type V = KindModel;

    open spec fn view(&self) -> KindModel {
        match self {
            MdKind::Heading(l) => KindModel::Heading(*l),
            MdKind::Text(t) => KindModel::Text(t@),
            MdKind::Code(c) => KindModel::Code(c@),
            MdKind::SoftBreak => KindModel::SoftBreak,
            MdKind::LineBreak => KindModel::LineBreak,
            MdKind::Link => KindModel::Link,
            MdKind::Other => KindModel::Other,
        }
    }
}

impl View for MdEvent {
    type V = EventModel;

    open spec fn view(&self) -> EventModel {
        match self {
            MdEvent::Open(k, line) => EventModel::Open(k@, *line),
            MdEvent::Close => EventModel::Close,
        }
    }
}

pub open spec fn event_views(s: Seq<MdEvent>) -> Seq<EventModel> {
    s.map_values(|e: MdEvent| e@)
}

/// What comrak's `parse_document` makes of a body with these options, walked
/// with `traverse`: each node's start and end, in document order.
pub uninterp spec fn comrak_events(body: Seq<char>, opts: MarkdownOptions) -> Seq<EventModel>;

/// The HTML comrak's `format_html` writes for that document once each listed
/// node, by its place in document order, is replaced by the listed pieces.
pub uninterp spec fn comrak_html(
    body: Seq<char>,
    opts: MarkdownOptions,
    reps: Seq<(usize, Seq<(Option<Seq<char>>, Seq<char>)>)>,
) -> Seq<char>;

/// A piece as the HTML step takes it: a link's destination, if it is a
/// link, and its text.
pub open spec fn pair_of(p: PieceModel) -> (Option<Seq<char>>, Seq<char>) {
    match p {
        PieceModel::Text(t) => (None, t),
        PieceModel::Link { url, label } => (Some(url), label),
    }
}

pub open spec fn pairs_of(s: Seq<PieceModel>) -> Seq<(Option<Seq<char>>, Seq<char>)> {
    s.map_values(|p: PieceModel| pair_of(p))
}

pub open spec fn pair_views(s: Seq<(Option<String>, String)>) -> Seq<(Option<Seq<char>>, Seq<char>)> {
    s.map_values(|p: (Option<String>, String)| (crate::ledger::string_opt(p.0), p.1@))
}

pub open spec fn rep_views(s: Seq<(usize, Vec<(Option<String>, String)>)>) -> Seq<
    (usize, Seq<(Option<Seq<char>>, Seq<char>)>),
> {
    s.map_values(|r: (usize, Vec<(Option<String>, String)>)| (r.0, pair_views(r.1@)))
}

fn to_pairs(ps: Vec<Piece>) -> (r: Vec<(Option<String>, String)>)
    ensures
        pair_views(r@) == pairs_of(piece_views(ps@)),
{
    let mut out: Vec<(Option<String>, String)> = Vec::new();
    let mut k: usize = 0;
    while k < ps.len()
        invariant
            0 <= k <= ps@.len(),
            pair_views(out@) == pairs_of(piece_views(ps@)).take(k as int),
        decreases ps@.len() - k,
    {
        let ghost before = pair_views(out@);
        let pair = match &ps[k] {
            Piece::Text(t) => (None, t.clone()),
            Piece::Link { url, label } => (Some(url.clone()), label.clone()),
        };
        out.push(pair);
        assert(pair_views(out@) =~= pairs_of(piece_views(ps@)).take(k + 1)) by {
            assert(pair_views(out@) =~= before.push(pair_of(ps@[k as int]@)));
        }
        k = k + 1;
    }
    assert(pairs_of(piece_views(ps@)).take(ps@.len() as int) =~= pairs_of(piece_views(ps@)));
    out
}

/// `comrak::parse_document` with these options, walked with `traverse`.
///
/// Trusted: the walk is named, not described; the body parses, then turns
/// each start or end of a node into an event, telling comrak's node kinds
/// apart.
#[verifier::external_body]
fn markdown_events(body: &str, f: &NoteFormat) -> (r: Vec<MdEvent>)
    ensures
        event_views(r@) == comrak_events(body@, f.plain),
{
    let arena = comrak::Arena::new();
    comrak::parse_document(&arena, body, &f.comrak).traverse().map(|e| match e {
        NodeEdge::End(_) => MdEvent::Close,
        NodeEdge::Start(n) => MdEvent::Open(match &n.data.borrow().value {
            NodeValue::Heading(h) => MdKind::Heading(h.level),
            NodeValue::Text(t) => MdKind::Text(t.to_string()),
            NodeValue::Code(c) => MdKind::Code(c.literal.clone()),
            NodeValue::SoftBreak => MdKind::SoftBreak,
            NodeValue::LineBreak => MdKind::LineBreak,
            NodeValue::Link(_) => MdKind::Link,
            _ => MdKind::Other,
        }, n.data.borrow().sourcepos.start.line),
    }).collect()
}

/// `comrak::parse_document`, then each listed node replaced by its pieces
/// (text, or a link around its label), then `comrak::format_html`.
///
/// Trusted: the HTML is named, not described; the body only converts the
/// pieces into comrak's nodes and makes the three calls.
#[verifier::external_body]
fn markdown_html(body: &str, f: &NoteFormat, reps: Vec<(usize, Vec<(Option<String>, String)>)>) -> (r: String)
    requires
        forall|j: int| 0 <= j < reps@.len() ==> (#[trigger] reps@[j]).0 < opens(comrak_events(body@, f.plain)),
    ensures
        r@ == comrak_html(body@, f.plain, rep_views(reps@)),
{
    let arena = comrak::Arena::new();
    let nodes: Vec<_> = comrak::parse_document(&arena, body, &f.comrak).descendants().collect();
    for (i, ps) in reps {
        for (url, text) in ps {
            let t = arena.alloc(NodeValue::Text(text.into()).into());
            let l = url.map(|url| arena.alloc(NodeValue::Link(Box::new(NodeLink { url, title: String::new() })).into()));
            nodes[i].insert_before(l.map_or(t, |l| { l.append(t); l }));
        }
        nodes[i].detach();
    }
    let mut html = String::new();
    let _ = comrak::format_html(nodes[0], &f.comrak, &mut html);
    html
}

/// How many nodes the walk opens.
pub open spec fn opens(ev: Seq<EventModel>) -> nat
    decreases ev.len(),
{
    if ev.len() == 0 {
        0
    } else {
        opens(ev.drop_last()) + if ev.last() is Open {
            1nat
        } else {
            0nat
        }
    }
}

/// The walk so far: the nodes open (and whether each is a link), how many
/// links are open, how many nodes were opened, the text nodes met (their
/// place in document order, text, and whether a link encloses them), the
/// headings finished, and the heading whose text is being gathered.
pub struct OutlineModel {
    pub stack: Seq<bool>,
    pub links: nat,
    pub count: nat,
    pub texts: Seq<(nat, Seq<char>, bool)>,
    pub headings: Seq<(u8, Seq<char>, usize)>,
    pub capture: Option<(u8, Seq<char>, usize)>,
}

pub open spec fn outline_start() -> OutlineModel {
    OutlineModel { stack: seq![], links: 0, count: 0, texts: seq![], headings: seq![], capture: None }
}

/// What a node adds to a heading's visible text: its text or code, and a
/// space for a line break.
pub open spec fn visible(k: KindModel) -> Seq<char> {
    match k {
        KindModel::Text(t) => t,
        KindModel::Code(c) => c,
        KindModel::SoftBreak => seq![' '],
        KindModel::LineBreak => seq![' '],
        _ => seq![],
    }
}

pub open spec fn is_link_kind(k: KindModel) -> bool {
    k is Link
}

/// A node opened. A heading at the top level of the document starts
/// gathering text; every node inside it adds what it shows.
pub open spec fn opened(s: OutlineModel, k: KindModel, line: usize) -> OutlineModel {
    OutlineModel {
        stack: s.stack.push(is_link_kind(k)),
        links: if is_link_kind(k) {
            s.links + 1
        } else {
            s.links
        },
        count: s.count + 1,
        texts: match k {
            KindModel::Text(t) => s.texts.push((s.count, t, s.links > 0)),
            _ => s.texts,
        },
        headings: s.headings,
        capture: match s.capture {
            Some((l, t, n)) => Some((l, t + visible(k), n)),
            None => match k {
                KindModel::Heading(l) => if s.stack.len() == 1 {
                    Some((l, seq![], line))
                } else {
                    None
                },
                _ => None,
            },
        },
    }
}

/// A node closed. Closing the top-level heading being gathered records it,
/// its text trimmed.
pub open spec fn closed(s: OutlineModel) -> OutlineModel {
    if s.stack.len() == 0 {
        s
    } else {
        let stack = s.stack.drop_last();
        let links = if s.stack.last() && s.links > 0 {
            (s.links - 1) as nat
        } else {
            s.links
        };
        match s.capture {
            Some((l, t, n)) => if stack.len() == 1 {
                OutlineModel { stack, links, headings: s.headings.push((l, trim(t), n)), capture: None, ..s }
            } else {
                OutlineModel { stack, links, ..s }
            },
            None => OutlineModel { stack, links, ..s },
        }
    }
}

pub open spec fn outline_step(s: OutlineModel, e: EventModel) -> OutlineModel {
    match e {
        EventModel::Open(k, line) => opened(s, k, line),
        EventModel::Close => closed(s),
    }
}

/// The walk over the first `k` events.
pub open spec fn outline_upto(ev: Seq<EventModel>, k: int) -> OutlineModel
    decreases k,
{
    if k <= 0 {
        outline_start()
    } else {
        outline_step(outline_upto(ev, k - 1), ev[k - 1])
    }
}

pub open spec fn outline(ev: Seq<EventModel>) -> OutlineModel {
    outline_upto(ev, ev.len() as int)
}

/// What the text nodes give a rendered note: their links, embeds and tags,
/// and the pieces each node with a wikilink or tag is rewritten into.
pub struct NotesModel {
    pub links: Seq<LinkModel>,
    pub embeds: Seq<LinkModel>,
    pub tags: Seq<Seq<char>>,
    pub reps: Seq<(usize, Seq<(Option<Seq<char>>, Seq<char>)>)>,
}

/// The first `k` text nodes. A node inside a link is left alone, as is one
/// with nothing to rewrite.
pub open spec fn notes_upto(ts: Seq<(nat, Seq<char>, bool)>, k: int) -> NotesModel
    decreases k,
{
    if k <= 0 {
        NotesModel { links: seq![], embeds: seq![], tags: seq![], reps: seq![] }
    } else {
        let m = notes_upto(ts, k - 1);
        let t = ts[k - 1];
        let b = encode_utf8(t.1);
        let fs = crate::wikilink::scan_from(b, 0);
        if t.2 || fs.len() == 0 {
            m
        } else {
            NotesModel {
                links: m.links + links_upto(fs, fs.len() as int, false),
                embeds: m.embeds + links_upto(fs, fs.len() as int, true),
                tags: tags_upto(m.tags, fs, fs.len() as int),
                reps: m.reps.push((t.0 as usize, pairs_of(rewrite_spec(b, fs)))),
            }
        }
    }
}

/// The frontmatter's bytes, when the text has it.
pub open spec fn frontmatter_bytes(t: Seq<u8>) -> Option<Seq<u8>> {
    match crate::frontmatter::frontmatter_close(t) {
        Some(p) => Some(t.subrange(4, p)),
        None => None,
    }
}

/// The body's bytes: what follows the frontmatter, or all of it.
pub open spec fn body_bytes(t: Seq<u8>) -> Seq<u8> {
    match crate::frontmatter::frontmatter_close(t) {
        Some(p) => t.subrange(crate::frontmatter::body_start(t, p), t.len() as int),
        None => t,
    }
}

pub open spec fn heading_views(s: Seq<Heading>) -> Seq<(u8, Seq<char>, usize)> {
    s.map_values(|h: Heading| (h.level, h.text@, h.line))
}

pub open spec fn text_views(s: Seq<(usize, String, bool)>) -> Seq<(nat, Seq<char>, bool)> {
    s.map_values(|t: (usize, String, bool)| (t.0 as nat, t.1@, t.2))
}

pub open spec fn capture_view(c: Option<(u8, Vec<char>, usize)>) -> Option<(u8, Seq<char>, usize)> {
    match c {
        Some((l, t, n)) => Some((l, t@, n)),
        None => None,
    }
}

fn push_visible(t: &mut Vec<char>, k: &MdKind)
    ensures
        final(t)@ == old(t)@ + visible(k@),
{
    match k {
        MdKind::Text(s) => {
            let cs = chars_of(s.as_str());
            crate::chars::extend(t, cs.as_slice());
        },
        MdKind::Code(s) => {
            let cs = chars_of(s.as_str());
            crate::chars::extend(t, cs.as_slice());
        },
        MdKind::SoftBreak | MdKind::LineBreak => {
            let ghost before = t@;
            t.push(' ');
            assert(t@ =~= before + seq![' ']);
        },
        _ => {
            assert(t@ =~= t@ + seq![]);
        },
    }
}

/// Walks the parsed document: its text nodes, with their place in document
/// order and whether a link encloses them, and its top-level headings.
fn walk(events: &Vec<MdEvent>) -> (r: (Vec<(usize, String, bool)>, Vec<Heading>))
    ensures
        text_views(r.0@) == outline(event_views(events@)).texts,
        heading_views(r.1@) == outline(event_views(events@)).headings,
        forall|j: int| 0 <= j < r.0@.len() ==> (#[trigger] r.0@[j]).0 < opens(event_views(events@)),
{
    let ghost ev = event_views(events@);
    let mut stack: Vec<bool> = Vec::new();
    let mut links: usize = 0;
    let mut count: usize = 0;
    let mut texts: Vec<(usize, String, bool)> = Vec::new();
    let mut headings: Vec<Heading> = Vec::new();
    let mut capture: Option<(u8, Vec<char>, usize)> = None;
    let mut k: usize = 0;
    assert(text_views(texts@) =~= Seq::<(nat, Seq<char>, bool)>::empty());
    assert(heading_views(headings@) =~= Seq::<(u8, Seq<char>, usize)>::empty());
    assert(ev.take(0) =~= Seq::<EventModel>::empty());
    while k < events.len()
        invariant
            ev == event_views(events@),
            0 <= k <= events@.len(),
            stack@ == outline_upto(ev, k as int).stack,
            links == outline_upto(ev, k as int).links,
            count == outline_upto(ev, k as int).count,
            text_views(texts@) == outline_upto(ev, k as int).texts,
            heading_views(headings@) == outline_upto(ev, k as int).headings,
            capture_view(capture) == outline_upto(ev, k as int).capture,
            count == opens(ev.take(k as int)),
            links <= count,
            count <= k,
            forall|j: int| 0 <= j < texts@.len() ==> (#[trigger] texts@[j]).0 < count,
        decreases events@.len() - k,
    {
        let ghost s = outline_upto(ev, k as int);
        assert(ev[k as int] == events@[k as int]@);
        proof {
            assert(ev.take(k + 1).drop_last() =~= ev.take(k as int));
            assert(ev.take(k + 1).last() == ev[k as int]);
        }
        match &events[k] {
            MdEvent::Open(kind, line) => {
                let is_link = match kind {
                    MdKind::Link => true,
                    _ => false,
                };
                let depth = stack.len();
                capture = match capture {
                    Some((l, t, n)) => {
                        let mut t = t;
                        push_visible(&mut t, kind);
                        Some((l, t, n))
                    },
                    None => match kind {
                        MdKind::Heading(l) => if depth == 1 {
                            Some((*l, Vec::new(), *line))
                        } else {
                            None
                        },
                        _ => None,
                    },
                };
                match kind {
                    MdKind::Text(t) => {
                        let ghost before = text_views(texts@);
                        texts.push((count, t.clone(), links > 0));
                        assert(text_views(texts@) =~= before.push((count as nat, t@, links > 0)));
                    },
                    _ => {},
                }
                stack.push(is_link);
                if is_link {
                    links = links + 1;
                }
                count = count + 1;
                assert(capture_view(capture) == outline_upto(ev, k + 1).capture);
            },
            MdEvent::Close => {
                if stack.len() > 0 {
                    let ghost st = stack@;
                    let top = stack.pop().unwrap();
                    assert(stack@ =~= st.drop_last());
                    if top && links > 0 {
                        links = links - 1;
                    }
                    capture = match capture {
                        Some((l, t, n)) => if stack.len() == 1 {
                            let tt = trimmed(t.as_slice());
                            let ghost before = heading_views(headings@);
                            headings.push(Heading { level: l, text: string_of(tt.as_slice()), line: n });
                            assert(heading_views(headings@) =~= before.push((l, trim(t@), n)));
                            None
                        } else {
                            Some((l, t, n))
                        },
                        None => None,
                    };
                }
            },
        }
        k = k + 1;
    }
    assert(ev.take(ev.len() as int) =~= ev);
    (texts, headings)
}

/// Renders a note: the frontmatter split off and kept as written, the body
/// parsed, every wikilink and tag in a text node outside a link rewritten
/// into a link and collected, and the top-level headings collected with their
/// visible text, trimmed. Raw HTML is escaped (`note_options`).
pub fn render(text: &str) -> (r: RenderedNote)
    ensures
        match r.frontmatter {
            Some(f) => frontmatter_bytes(sb(text)) == Some(encode_utf8(f@)),
            None => frontmatter_bytes(sb(text)) is None,
        },
        ({
            let body = decode_utf8(body_bytes(sb(text)));
            let o = outline(comrak_events(body, note_options()));
            let m = notes_upto(o.texts, o.texts.len() as int);
            &&& heading_views(r.headings@) == o.headings
            &&& link_views(r.links@) == m.links
            &&& link_views(r.embeds@) == m.embeds
            &&& tag_views(r.tags@) == m.tags
            &&& r.html@ == comrak_html(body, note_options(), m.reps)
        }),
{
    let parts = crate::frontmatter::split(text);
    proof {
        vstd::utf8::encode_utf8_decode_utf8(parts.body@);
        if let Some(f) = parts.frontmatter {
            vstd::utf8::encode_utf8_decode_utf8(f@);
        }
    }
    let ghost body = decode_utf8(body_bytes(sb(text)));
    assert(parts.body@ == body);
    let f = note_format(options());
    let events = markdown_events(parts.body, &f);
    let (texts, headings) = walk(&events);
    let ghost ol = outline(comrak_events(body, note_options()));
    let ghost tv = ol.texts;
    let mut out = RenderedNote::empty();
    out.frontmatter = match parts.frontmatter {
        Some(f) => Some(crate::text::own(f)),
        None => None,
    };
    out.headings = headings;
    let mut reps: Vec<(usize, Vec<(Option<String>, String)>)> = Vec::new();
    let mut k: usize = 0;
    assert(link_views(out.links@) =~= Seq::<LinkModel>::empty());
    assert(link_views(out.embeds@) =~= Seq::<LinkModel>::empty());
    assert(tag_views(out.tags@) =~= Seq::<Seq<char>>::empty());
    assert(rep_views(reps@) =~= Seq::<(usize, Seq<(Option<Seq<char>>, Seq<char>)>)>::empty());
    while k < texts.len()
        invariant
            0 <= k <= texts@.len(),
            text_views(texts@) == tv,
            forall|j: int| 0 <= j < texts@.len() ==> (#[trigger] texts@[j]).0 < opens(comrak_events(body, note_options())),
            link_views(out.links@) == notes_upto(tv, k as int).links,
            link_views(out.embeds@) == notes_upto(tv, k as int).embeds,
            tag_views(out.tags@) == notes_upto(tv, k as int).tags,
            rep_views(reps@) == notes_upto(tv, k as int).reps,
            forall|j: int| 0 <= j < reps@.len() ==> (#[trigger] reps@[j]).0 < opens(comrak_events(body, note_options())),
            heading_views(out.headings@) == ol.headings,
            match out.frontmatter {
                Some(f) => frontmatter_bytes(sb(text)) == Some(encode_utf8(f@)),
                None => frontmatter_bytes(sb(text)) is None,
            },
        decreases texts@.len() - k,
    {
        let (i, lit, in_link) = (&texts[k].0, &texts[k].1, &texts[k].2);
        assert(tv[k as int] == (*i as nat, lit@, *in_link));
        if !*in_link {
            let ls = lit.as_str();
            let found = scan(ls);
            if found.len() > 0 {
                proof {
                    crate::wikilink::law_found_ranges_are_exact(ls);
                }
                let ghost before = rep_views(reps@);
                let pieces = rewrite(ls, &found, &mut out);
                let pairs = to_pairs(pieces);
                reps.push((*i, pairs));
                assert(rep_views(reps@) =~= before.push((*i, pair_views(reps@[reps@.len() - 1].1@))));
            }
        }
        k = k + 1;
    }
    out.html = markdown_html(parts.body, &f, reps);
    out
}

} // verus!
