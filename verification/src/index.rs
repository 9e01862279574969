//! The derived index's vocabulary: how names are folded for comparison, how
//! typed search text becomes a query that cannot be a syntax error, and what
//! the queries return. The store itself is the shell's.
use vstd::prelude::*;
use crate::chars::{
    extend, join_parts, join_with, line_views, lines_of, occurs_at, replace, replace_all, replace_from, split_lines,
};
use crate::path::{is_white_space, is_whitespace};
use crate::render::{Heading, RenderedNote};
use crate::tree::{is_canvas_path, is_note_path, TreeEntry};
use crate::wikilink::{opt_view, WikiLink};
use crate::text::{chars_of, lowercase, own, push_str, string_of, to_lower, trim, trim_owned};

verus! {

/// Case-folded for comparison: trimmed, then lowercased.
pub open spec fn folded(s: Seq<char>) -> Seq<char> {
    lowercase(trim(s))
}

/// Case-fold for comparison. One place, so link resolution, tag matching and
/// heading anchors all fold identically.
pub fn fold(s: &str) -> (r: String)
    ensures
        r@ == folded(s@),
{
    let t = trim_owned(s);
    to_lower(t.as_str())
}

/// Where the word starting at `i` ends: the next whitespace, or the end.
pub open spec fn word_end(s: Seq<char>, i: int) -> int
    decreases s.len() - i,
{
    if i < 0 || i >= s.len() || is_white_space(s[i]) {
        if i < 0 {
            0
        } else if i > s.len() {
            s.len() as int
        } else {
            i
        }
    } else {
        word_end(s, i + 1)
    }
}

pub proof fn lemma_word_end(s: Seq<char>, i: int)
    requires
        0 <= i <= s.len(),
    ensures
        i <= word_end(s, i) <= s.len(),
    decreases s.len() - i,
{
    if i < s.len() && !is_white_space(s[i]) {
        lemma_word_end(s, i + 1);
    }
}

/// The words of a text from `i` on, as `str::split_whitespace` yields them.
pub open spec fn words_from(s: Seq<char>, i: int) -> Seq<Seq<char>>
    decreases s.len() - i,
{
    if i < 0 || i >= s.len() {
        seq![]
    } else if is_white_space(s[i]) {
        words_from(s, i + 1)
    } else {
        proof {
            lemma_word_end(s, i + 1);
        }
        seq![s.subrange(i, word_end(s, i + 1))] + words_from(s, word_end(s, i + 1))
    }
}

pub open spec fn dquote() -> Seq<char> {
    seq!['"']
}

/// A term as an FTS5 string literal: quoted, with inner quotes doubled; the
/// last one gets a prefix `*` so search-as-you-type matches a partial word.
pub open spec fn quoted_term(t: Seq<char>, last: bool) -> Seq<char> {
    dquote() + replace_all(t, dquote(), seq!['"', '"']) + dquote() + (if last {
        seq!['*']
    } else {
        seq![]
    })
}

/// The MATCH expression for some typed text; `None` when it has no words.
pub open spec fn fts_query(input: Seq<char>) -> Option<Seq<char>> {
    let w = words_from(input, 0);
    if w.len() == 0 {
        None
    } else {
        Some(
            join_with(
                Seq::new(w.len(), |k: int| quoted_term(w[k], k == w.len() - 1)),
                " AND "@,
            ),
        )
    }
}

/// Splits text at whitespace, as `str::split_whitespace` does.
pub fn split_words(s: &[char]) -> (r: Vec<Vec<char>>)
    ensures
        line_views(r@) == words_from(s@, 0),
{
    let mut out: Vec<Vec<char>> = Vec::new();
    let mut i: usize = 0;
    while i < s.len()
        invariant
            0 <= i <= s.len(),
            line_views(out@) + words_from(s@, i as int) == words_from(s@, 0),
        decreases s.len() - i,
    {
        if is_whitespace(s[i]) {
            i = i + 1;
        } else {
            let mut e = i + 1;
            proof {
                lemma_word_end(s@, i + 1);
            }
            while e < s.len() && !is_whitespace(s[e])
                invariant
                    i < e <= s.len(),
                    word_end(s@, i + 1) == word_end(s@, e as int),
                decreases s.len() - e,
            {
                e = e + 1;
            }
            let w = crate::chars::slice_of(s, i, e);
            let ghost prev = out@;
            let ghost wv = w@;
            out.push(w);
            assert(line_views(out@) =~= line_views(prev).push(wv));
            assert(line_views(out@) + words_from(s@, e as int) =~= line_views(prev) + words_from(
                s@,
                i as int,
            ));
            i = e;
        }
    }
    assert(line_views(out@) + words_from(s@, i as int) =~= line_views(out@));
    out
}

/// Turns typed text into an FTS5 MATCH expression that cannot be a syntax
/// error: every term quoted, so operators and stray quotes are literal text.
pub fn to_fts_query(input: &str) -> (r: Option<String>)
    ensures
        match fts_query(input@) {
            Some(q) => r matches Some(s) && s@ == q,
            None => r is None,
        },
{
    let cs = chars_of(input);
    let words = split_words(cs.as_slice());
    if words.len() == 0 {
        return None;
    }
    let q1: [char; 1] = ['"'];
    let q2: [char; 2] = ['"', '"'];
    assert(q1@ =~= dquote());
    assert(q2@ =~= seq!['"', '"']);
    let ghost w = line_views(words@);
    let mut parts: Vec<Vec<char>> = Vec::new();
    let mut i: usize = 0;
    while i < words.len()
        invariant
            0 <= i <= words@.len(),
            w == line_views(words@),
            q1@ == dquote(),
            q2@ == seq!['"', '"'],
            line_views(parts@) =~= Seq::new(
                i as nat,
                |k: int| quoted_term(w[k], k == w.len() - 1),
            ),
        decreases words@.len() - i,
    {
        let mut t: Vec<char> = Vec::new();
        t.push('"');
        let esc = replace(words[i].as_slice(), &q1, &q2);
        extend(&mut t, esc.as_slice());
        t.push('"');
        if i == words.len() - 1 {
            t.push('*');
        }
        assert(w[i as int] == words@[i as int]@);
        assert(t@ =~= quoted_term(w[i as int], i == w.len() - 1));
        let ghost prev = parts@;
        let ghost tv = t@;
        parts.push(t);
        assert(line_views(parts@) =~= line_views(prev).push(tv));
        i = i + 1;
    }
    let sep = chars_of(" AND ");
    let joined = join_parts(&parts, sep.as_slice());
    Some(string_of(joined.as_slice()))
}

/// What the canvas row's content stamp is: canvases are indexed for their
/// existence and name, so their size and modification time stand in for a
/// content hash.
pub open spec fn canvas_stamp_text(size: i64, mtime: i64) -> Seq<char> {
    "size:"@ + crate::setup::int_text(size as int) + ":mtime:"@ + crate::setup::int_text(mtime as int)
}

fn signed(i: i64) -> (r: String)
    ensures
        r@ == crate::setup::int_text(i as int),
{
    proof {
        reveal_strlit("-");
    }
    if i < 0 {
        let mag: u64 = if i == i64::MIN {
            9223372036854775808u64
        } else {
            (-i) as u64
        };
        let mut out = own("-");
        let d = crate::entry::decimal(mag);
        push_str(&mut out, d.as_str());
        out
    } else {
        crate::entry::decimal(i as u64)
    }
}

pub fn canvas_stamp(size: i64, mtime: i64) -> (r: String)
    ensures
        r@ == canvas_stamp_text(size, mtime),
{
    let mut s = own("size:");
    let a = signed(size);
    push_str(&mut s, a.as_str());
    push_str(&mut s, ":mtime:");
    let b = signed(mtime);
    push_str(&mut s, b.as_str());
    s
}

/// A note is left alone on an incremental build when its stored stamp is the
/// one it has now; a forced build redoes everything.
pub fn unchanged(force: bool, stored: Option<&str>, stamp: &str) -> (r: bool)
    ensures
        r == (!force && (stored matches Some(s) && s@ == stamp@)),
{
    if force {
        return false;
    }
    match stored {
        Some(s) => crate::text::str_eq(s, stamp),
        None => false,
    }
}

/// A note's title: its first level-1 heading, else its file stem.
pub open spec fn title_from(headings: Seq<Heading>, stem: Seq<char>) -> Seq<char>
    decreases headings.len(),
{
    if headings.len() == 0 {
        stem
    } else if headings[0].level == 1 {
        headings[0].text@
    } else {
        title_from(headings.drop_first(), stem)
    }
}

pub fn note_title(headings: &Vec<Heading>, stem: &str) -> (r: String)
    ensures
        r@ == title_from(headings@, stem@),
{
    let mut i: usize = 0;
    assert(headings@.skip(0) =~= headings@);
    while i < headings.len()
        invariant
            0 <= i <= headings@.len(),
            title_from(headings@, stem@) == title_from(headings@.skip(i as int), stem@),
        decreases headings@.len() - i,
    {
        assert(headings@.skip(i as int)[0] == headings@[i as int]);
        if headings[i].level == 1 {
            return headings[i].text.clone();
        }
        assert(headings@.skip(i as int).drop_first() =~= headings@.skip(i + 1));
        i = i + 1;
    }
    own(stem)
}

#[derive(Debug, Clone, PartialEq, Eq)]
pub struct NoteRef {
    pub path: String,
    pub title: String,
    pub is_canvas: bool,
}

#[derive(Debug, Clone, PartialEq, Eq)]
pub struct SearchHit {
    pub path: String,
    pub title: String,
    /// Context around the match, with the matched terms wrapped in `«…»`.
    pub snippet: String,
}

#[derive(Debug, Clone, PartialEq, Eq)]
pub struct Backlink {
    pub path: String,
    pub title: String,
    /// How the link was written in the source note.
    pub target: String,
    pub alias: Option<String>,
    pub is_embed: bool,
}

#[derive(Debug, Clone, PartialEq, Eq)]
pub struct OutgoingLink {
    pub target: String,
    pub anchor: Option<String>,
    pub alias: Option<String>,
    pub is_embed: bool,
    /// The note this resolves to, or `None` when nothing matches.
    pub resolved_path: Option<String>,
}

#[derive(Debug, Clone, PartialEq, Eq)]
pub struct UnresolvedLink {
    pub target: String,
    /// How many notes link to this non-existent note.
    pub count: i64,
    /// A few of the notes that link to it.
    pub sources: Vec<String>,
}

#[derive(Debug, Clone, PartialEq, Eq)]
pub struct TagCount {
    pub name: String,
    pub count: i64,
}

#[derive(Debug, Clone, Copy, PartialEq, Eq, Structural)]
pub struct IndexStats {
    pub notes: i64,
    pub canvases: i64,
    pub links: i64,
    pub resolved_links: i64,
    pub unresolved_links: i64,
    pub tags: i64,
    pub distinct_tags: i64,
    pub orphans: i64,
}

#[derive(Debug, Clone, PartialEq, Eq)]
pub struct GraphNode {
    pub id: usize,
    pub path: String,
    pub title: String,
    pub is_canvas: bool,
    /// Total degree, so the layout can size nodes without a second pass.
    pub degree: usize,
}

#[derive(Debug, Clone, Copy, PartialEq, Eq, Structural)]
pub struct GraphEdge {
    pub source: usize,
    pub target: usize,
}

#[derive(Debug, Clone, PartialEq, Eq)]
pub struct Graph {
    pub nodes: Vec<GraphNode>,
    /// Observed links only.
    pub edges: Vec<GraphEdge>,
}

#[derive(Debug, Clone, PartialEq, Eq)]
pub struct BuildStats {
    pub notes: usize,
    pub canvases: usize,
    pub links: usize,
    pub tags: usize,
    pub headings: usize,
    /// Notes whose content was unchanged and so were not re-rendered.
    pub skipped_unchanged: usize,
    /// Files that could not be indexed, with the reason.
    pub failed: Vec<(String, String)>,
    pub elapsed_ms: u128,
}

impl Default for BuildStats {
    fn default() -> (r: BuildStats)
        ensures
            r.notes == 0 && r.canvases == 0 && r.links == 0 && r.tags == 0 && r.headings == 0
                && r.skipped_unchanged == 0 && r.failed@.len() == 0 && r.elapsed_ms == 0,
    {
        BuildStats {
            notes: 0,
            canvases: 0,
            links: 0,
            tags: 0,
            headings: 0,
            skipped_unchanged: 0,
            failed: Vec::new(),
            elapsed_ms: 0,
        }
    }
}

/// What the caller is told while a build runs.
#[derive(Debug, Clone, Copy, PartialEq, Eq, Structural)]
pub struct Progress {
    pub done: usize,
    pub total: usize,
}


/// What indexing one file came to.
#[derive(Debug, Clone, Copy, PartialEq, Eq, Structural)]
pub enum Outcome {
    /// Its rows were written afresh.
    Indexed { links: usize, tags: usize, headings: usize, is_canvas: bool },
    /// Its stamp matched the stored one, so nothing was rewritten.
    Unchanged { is_canvas: bool },
}

/// The file an outcome is about: a canvas or a note.
pub open spec fn outcome_is_canvas(o: Outcome) -> bool {
    match o {
        Outcome::Indexed { is_canvas, .. } => is_canvas,
        Outcome::Unchanged { is_canvas } => is_canvas,
    }
}

/// The counters that an outcome adds to, before they overflow.
pub open spec fn room_for(s: BuildStats, outcome: Result<Outcome, String>) -> bool {
    match outcome {
        Ok(o) => {
            &&& s.notes < usize::MAX
            &&& s.canvases < usize::MAX
            &&& s.skipped_unchanged < usize::MAX
            &&& o matches Outcome::Indexed { links, tags, headings, .. } ==> {
                &&& s.links + links <= usize::MAX
                &&& s.tags + tags <= usize::MAX
                &&& s.headings + headings <= usize::MAX
            }
        },
        Err(_) => true,
    }
}

impl BuildStats {
    /// Counts one file's outcome into the totals, or records why it failed.
    ///
    /// Every file is either counted (as a note or a canvas, and as skipped
    /// when unchanged) or listed under `failed` with its reason: a vault that
    /// is only partly searchable says so.
    pub fn record(&mut self, path: &str, outcome: Result<Outcome, String>)
        requires
            room_for(*old(self), outcome),
        ensures
            final(self).elapsed_ms == old(self).elapsed_ms,
            match outcome {
                Ok(o) => {
                    &&& final(self).failed@ == old(self).failed@
                    &&& final(self).canvases == old(self).canvases + if outcome_is_canvas(o) {
                        1int
                    } else {
                        0int
                    }
                    &&& final(self).notes == old(self).notes + if outcome_is_canvas(o) {
                        0int
                    } else {
                        1int
                    }
                    &&& match o {
                        Outcome::Indexed { links, tags, headings, .. } => {
                            &&& final(self).links == old(self).links + links
                            &&& final(self).tags == old(self).tags + tags
                            &&& final(self).headings == old(self).headings + headings
                            &&& final(self).skipped_unchanged == old(self).skipped_unchanged
                        },
                        Outcome::Unchanged { .. } => {
                            &&& final(self).links == old(self).links
                            &&& final(self).tags == old(self).tags
                            &&& final(self).headings == old(self).headings
                            &&& final(self).skipped_unchanged == old(self).skipped_unchanged + 1
                        },
                    }
                },
                Err(reason) => {
                    &&& final(self).failed@.len() == old(self).failed@.len() + 1
                    &&& final(self).failed@.drop_last() == old(self).failed@
                    &&& final(self).failed@.last().0@ == path@
                    &&& final(self).failed@.last().1 == reason
                    &&& final(self).notes == old(self).notes
                    &&& final(self).canvases == old(self).canvases
                    &&& final(self).links == old(self).links
                    &&& final(self).tags == old(self).tags
                    &&& final(self).headings == old(self).headings
                    &&& final(self).skipped_unchanged == old(self).skipped_unchanged
                },
            },
    {
        match outcome {
            Ok(Outcome::Indexed { links, tags, headings, is_canvas }) => {
                if is_canvas {
                    self.canvases = self.canvases + 1;
                } else {
                    self.notes = self.notes + 1;
                }
                self.links = self.links + links;
                self.tags = self.tags + tags;
                self.headings = self.headings + headings;
            },
            Ok(Outcome::Unchanged { is_canvas }) => {
                if is_canvas {
                    self.canvases = self.canvases + 1;
                } else {
                    self.notes = self.notes + 1;
                }
                self.skipped_unchanged = self.skipped_unchanged + 1;
            },
            Err(reason) => {
                self.failed.push((own(path), reason));
            },
        }
    }
}

/// Whether the caller is told of progress after the file at `i`: every 64
/// files, and after the last one.
pub fn progress_due(i: usize, total: usize) -> (r: bool)
    ensures
        r == (i % 64 == 0 || i + 1 == total),
{
    i % 64 == 0 || (i < total && i + 1 == total)
}

/// Whether a tree entry goes into the index: notes and canvases, never a
/// directory.
pub fn indexable(e: &TreeEntry) -> (r: bool)
    ensures
        r == (!e.is_dir && (is_note_path(e.path@) || is_canvas_path(e.path@))),
{
    !e.is_dir && (e.path.is_markdown() || e.path.is_canvas())
}

/// A link as the index stores it: as written, with its target folded for
/// resolution.
#[derive(Debug, Clone, PartialEq, Eq)]
pub struct LinkRow {
    pub target: String,
    pub target_folded: String,
    pub anchor: Option<String>,
    pub alias: Option<String>,
    pub is_embed: bool,
}

/// A tag as the index stores it.
#[derive(Debug, Clone, PartialEq, Eq)]
pub struct TagRow {
    pub name: String,
    pub name_folded: String,
}

/// A heading as the index stores it, for the outline and for anchors.
#[derive(Debug, Clone, PartialEq, Eq)]
pub struct BlockRow {
    pub level: u8,
    pub text: String,
    pub text_folded: String,
    pub line: usize,
}

/// Everything one note contributes to the index besides its own row. A
/// changed note's rows are replaced wholesale by these, never merged.
#[derive(Debug, Clone, PartialEq, Eq)]
pub struct NoteRows {
    pub links: Vec<LinkRow>,
    pub tags: Vec<TagRow>,
    pub blocks: Vec<BlockRow>,
}

pub open spec fn link_row_for(row: LinkRow, l: WikiLink) -> bool {
    &&& row.target@ == l.target@
    &&& row.target_folded@ == folded(l.target@)
    &&& opt_view(row.anchor) == opt_view(l.anchor)
    &&& opt_view(row.alias) == opt_view(l.alias)
    &&& row.is_embed == l.embed
}

pub open spec fn tag_row_for(row: TagRow, name: String) -> bool {
    &&& row.name@ == name@
    &&& row.name_folded@ == folded(name@)
}

pub open spec fn block_row_for(row: BlockRow, h: Heading) -> bool {
    &&& row.level == h.level
    &&& row.text@ == h.text@
    &&& row.text_folded@ == folded(h.text@)
    &&& row.line == h.line
}

/// The links a note's rows are made from: its links, then its embeds.
pub open spec fn all_links(r: RenderedNote) -> Seq<WikiLink> {
    r.links@ + r.embeds@
}

/// The row for one link.
pub fn link_row(l: &WikiLink) -> (row: LinkRow)
    ensures
        link_row_for(row, *l),
{
    let c = l.clone_link();
    let target_folded = fold(c.target.as_str());
    LinkRow {
        target: c.target,
        target_folded,
        anchor: c.anchor,
        alias: c.alias,
        is_embed: c.embed,
    }
}

/// The rows a rendered note contributes: one per link and embed, one per tag
/// and one per heading, each in document order.
pub fn note_rows(r: &RenderedNote) -> (out: NoteRows)
    ensures
        out.links@.len() == all_links(*r).len(),
        forall|i: int| 0 <= i < out.links@.len() ==> link_row_for(#[trigger] out.links@[i], all_links(*r)[i]),
        out.tags@.len() == r.tags@.len(),
        forall|i: int| 0 <= i < out.tags@.len() ==> tag_row_for(#[trigger] out.tags@[i], r.tags@[i]),
        out.blocks@.len() == r.headings@.len(),
        forall|i: int| 0 <= i < out.blocks@.len() ==> block_row_for(#[trigger] out.blocks@[i], r.headings@[i]),
{
    let ghost every = all_links(*r);
    let mut links: Vec<LinkRow> = Vec::new();
    let mut i: usize = 0;
    while i < r.links.len()
        invariant
            0 <= i <= r.links@.len(),
            every == all_links(*r),
            links@.len() == i,
            forall|k: int| 0 <= k < i ==> link_row_for(#[trigger] links@[k], every[k]),
        decreases r.links@.len() - i,
    {
        links.push(link_row(&r.links[i]));
        i = i + 1;
    }
    let mut j: usize = 0;
    while j < r.embeds.len()
        invariant
            0 <= j <= r.embeds@.len(),
            every == all_links(*r),
            links@.len() == r.links@.len() + j,
            forall|k: int| 0 <= k < links@.len() ==> link_row_for(#[trigger] links@[k], every[k]),
        decreases r.embeds@.len() - j,
    {
        assert(every[r.links@.len() + j] == r.embeds@[j as int]);
        links.push(link_row(&r.embeds[j]));
        j = j + 1;
    }
    let mut tags: Vec<TagRow> = Vec::new();
    let mut t: usize = 0;
    while t < r.tags.len()
        invariant
            0 <= t <= r.tags@.len(),
            tags@.len() == t,
            forall|k: int| 0 <= k < t ==> tag_row_for(#[trigger] tags@[k], r.tags@[k]),
        decreases r.tags@.len() - t,
    {
        let name = own(r.tags[t].as_str());
        let name_folded = fold(r.tags[t].as_str());
        tags.push(TagRow { name, name_folded });
        t = t + 1;
    }
    let mut blocks: Vec<BlockRow> = Vec::new();
    let mut h: usize = 0;
    while h < r.headings.len()
        invariant
            0 <= h <= r.headings@.len(),
            blocks@.len() == h,
            forall|k: int| 0 <= k < h ==> block_row_for(#[trigger] blocks@[k], r.headings@[k]),
        decreases r.headings@.len() - h,
    {
        let hd = &r.headings[h];
        blocks.push(
            BlockRow {
                level: hd.level,
                text: own(hd.text.as_str()),
                text_folded: fold(hd.text.as_str()),
                line: hd.line,
            },
        );
        h = h + 1;
    }
    NoteRows { links, tags, blocks }
}

impl NoteRows {
    /// What writing these rows comes to, for the build's totals.
    pub fn outcome(&self) -> (o: Outcome)
        ensures
            o == (Outcome::Indexed {
                links: self.links@.len() as usize,
                tags: self.tags@.len() as usize,
                headings: self.blocks@.len() as usize,
                is_canvas: false,
            }),
    {
        Outcome::Indexed {
            links: self.links.len(),
            tags: self.tags.len(),
            headings: self.blocks.len(),
            is_canvas: false,
        }
    }
}

/// The schema's version. A database at any other version is thrown away and
/// rebuilt: it holds nothing that re-reading the vault cannot recover.
pub const SCHEMA_VERSION: i64 = 3;

/// Why the index could not be used.
#[derive(Debug, Clone, PartialEq, Eq)]
pub enum IndexError {
    /// The database refused a statement; what it said.
    Sqlite(String),
    /// The database was written by a build with another schema.
    SchemaMismatch { found: i64, expected: i64 },
    /// The database's directory could not be made, and why.
    Io { path: String, reason: String },
}

pub open spec fn index_error_text(e: IndexError) -> Seq<char> {
    match e {
        IndexError::Sqlite(m) => "sqlite: "@ + m@,
        IndexError::SchemaMismatch { found, expected } => "index is at schema version "@
            + crate::setup::int_text(found as int) + ", this build expects "@
            + crate::setup::int_text(expected as int),
        IndexError::Io { path, reason } => "io error at "@ + path@ + ": "@ + reason@,
    }
}

impl IndexError {
    /// The error as a sentence.
    pub fn message(&self) -> (r: String)
        ensures
            r@ == index_error_text(*self),
    {
        match self {
            IndexError::Sqlite(m) => {
                let mut out = own("sqlite: ");
                push_str(&mut out, m.as_str());
                out
            },
            IndexError::SchemaMismatch { found, expected } => {
                let mut out = own("index is at schema version ");
                let f = signed(*found);
                push_str(&mut out, f.as_str());
                push_str(&mut out, ", this build expects ");
                let x = signed(*expected);
                push_str(&mut out, x.as_str());
                out
            },
            IndexError::Io { path, reason } => {
                let mut out = own("io error at ");
                push_str(&mut out, path.as_str());
                push_str(&mut out, ": ");
                push_str(&mut out, reason.as_str());
                out
            },
        }
    }
}

/// What opening a database must do about its schema, given the version it
/// records: create the schema when there is none (`Ok(true)`), nothing when
/// it is this build's (`Ok(false)`), and refuse any other version.
pub fn schema_step(found: Option<i64>) -> (r: Result<bool, IndexError>)
    ensures
        match found {
            None => r == Ok::<bool, IndexError>(true),
            Some(v) => if v == SCHEMA_VERSION {
                r == Ok::<bool, IndexError>(false)
            } else {
                r == Err::<bool, IndexError>(
                    IndexError::SchemaMismatch { found: v, expected: SCHEMA_VERSION },
                )
            },
        },
{
    match found {
        None => Ok(true),
        Some(v) => if v == SCHEMA_VERSION {
            Ok(false)
        } else {
            Err(IndexError::SchemaMismatch { found: v, expected: SCHEMA_VERSION })
        },
    }
}

/// What quick-open matches with: the pattern that finds the folded input
/// anywhere, and the folded input itself for ranking. `None` when the input
/// folds to nothing, in which case quick-open lists recent notes instead.
pub fn quick_open_terms(input: &str) -> (r: Option<(String, String)>)
    ensures
        match r {
            Some((like, needle)) => {
                &&& folded(input@).len() > 0
                &&& needle@ == folded(input@)
                &&& like@ == seq!['%'] + folded(input@) + seq!['%']
            },
            None => folded(input@).len() == 0,
        },
{
    let needle = fold(input);
    if needle.as_str().is_empty() {
        return None;
    }
    proof {
        reveal_strlit("%");
    }
    let mut like = own("%");
    push_str(&mut like, needle.as_str());
    push_str(&mut like, "%");
    Some((like, needle))
}

/// How many of an unresolved target's sources are shown.
pub const SHOWN_SOURCES: usize = 5;

/// The first few of the source paths a query returned one per line.
pub fn first_sources(srcs: &str) -> (r: Vec<String>)
    ensures
        r@.len() == if lines_of(srcs@).len() < SHOWN_SOURCES {
            lines_of(srcs@).len()
        } else {
            SHOWN_SOURCES as nat
        },
        forall|i: int| 0 <= i < r@.len() ==> #[trigger] r@[i]@ == lines_of(srcs@)[i],
{
    let cs = chars_of(srcs);
    let ls = split_lines(cs.as_slice());
    let ghost lv = line_views(ls@);
    let mut out: Vec<String> = Vec::new();
    let mut i: usize = 0;
    while i < ls.len() && i < SHOWN_SOURCES
        invariant
            0 <= i <= ls@.len(),
            i <= SHOWN_SOURCES,
            lv == line_views(ls@),
            lv == lines_of(srcs@),
            out@.len() == i,
            forall|k: int| 0 <= k < i ==> #[trigger] out@[k]@ == lv[k],
        decreases ls@.len() - i,
    {
        assert(lv[i as int] == ls@[i as int]@);
        out.push(string_of(ls[i].as_slice()));
        i = i + 1;
    }
    out
}

/// Text in which every `"` is one of an adjacent pair. Inside an FTS5 string
/// literal such a pair is a literal quote, never the literal's end.
pub open spec fn quotes_paired(s: Seq<char>) -> bool
    decreases s.len(),
{
    if s.len() == 0 {
        true
    } else if s[0] == '"' {
        s.len() >= 2 && s[1] == '"' && quotes_paired(s.skip(2))
    } else {
        quotes_paired(s.skip(1))
    }
}

proof fn lemma_doubling_pairs_quotes(s: Seq<char>, i: int)
    requires
        0 <= i,
    ensures
        quotes_paired(replace_from(s, dquote(), seq!['"', '"'], i)),
    decreases s.len() - i,
{
    let r = replace_from(s, dquote(), seq!['"', '"'], i);
    if i >= s.len() {
        assert(r =~= Seq::<char>::empty());
    } else if occurs_at(s, dquote(), i) {
        lemma_doubling_pairs_quotes(s, i + 1);
        assert(r.skip(2) =~= replace_from(s, dquote(), seq!['"', '"'], i + 1));
    } else {
        assert(s.subrange(i, i + 1) =~= seq![s[i]]);
        lemma_doubling_pairs_quotes(s, i + 1);
        assert(r.skip(1) =~= replace_from(s, dquote(), seq!['"', '"'], i + 1));
    }
}

/// Typed text can never make the search query a syntax error: every term
/// goes into the query as an FTS5 string literal, a quote, then the term with
/// each of its quotes doubled, then a closing quote (and a `*` after the last
/// term), so nothing the user types is read as an operator.
pub proof fn law_a_search_term_is_always_a_literal(t: Seq<char>, last: bool)
    ensures
        quoted_term(t, last) == seq!['"'] + replace_all(t, dquote(), seq!['"', '"']) + seq!['"'] + (
        if last {
            seq!['*']
        } else {
            seq![]
        }),
        quotes_paired(replace_all(t, dquote(), seq!['"', '"'])),
{
    lemma_doubling_pairs_quotes(t, 0);
}

} // verus!
