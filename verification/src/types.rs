//! Wire types: what crosses between the core and whichever shell is running,
//! and the few conversions that fill them.
use vstd::prelude::*;
use vstd::utf8::encode_utf8;
use crate::api::Shell;
use crate::entry::{op_name, op_touches_file, ActorKind, Entry};
use crate::hash::tagged_hash;
use crate::ledger::hash_of;
use crate::path::VaultPath;
use crate::text::{own, sb};
use crate::tree::Tree;
use crate::vault::Saved;
use crate::wikilink::{display_text, opt_view, WikiLink};
use crate::fidelity::{LineEnding, NoteText};
use crate::path::name_bytes;
use crate::render::RenderedNote;

verus! {

/// The vault indicator in the top bar.
#[derive(Debug, Clone, Copy, PartialEq, Eq, Structural)]
pub enum VaultStatus {
    /// No vault open: the first-run surface.
    Offline,
    /// Walking the file tree.
    Scanning,
    Online,
    /// Building or updating the derived index.
    Indexing,
}

#[derive(Debug, Clone, PartialEq, Eq)]
pub struct VaultInfo {
    pub name: String,
    /// Display-only; absent when the client should not learn the server's layout.
    pub path: Option<String>,
    pub note_count: usize,
    pub canvas_count: usize,
}

#[derive(Debug, Clone, PartialEq, Eq)]
pub struct Status {
    pub status: VaultStatus,
    pub shell: Shell,
    pub version: String,
    pub vault: Option<VaultInfo>,
    /// Whether this deployment allows browsing the filesystem to pick a vault.
    pub can_browse: bool,
    /// Whether the shell can open a native folder picker.
    pub can_pick_folder: bool,
}

/// A wikilink, flattened for the wire.
#[derive(Debug, Clone, PartialEq, Eq)]
pub struct Link {
    pub target: String,
    pub anchor: Option<String>,
    pub alias: Option<String>,
    pub display: String,
    /// Unknown without an index, so absent rather than a guess.
    pub resolved: Option<bool>,
}

fn copy_opt(o: &Option<String>) -> (r: Option<String>)
    ensures
        opt_view(r) == opt_view(*o),
{
    match o {
        Some(s) => Some(s.clone()),
        None => None,
    }
}

impl<'a> From<&'a WikiLink> for Link {
    fn from(w: &'a WikiLink) -> (r: Link)
        ensures
            r.target@ == w.target@,
            opt_view(r.anchor) == opt_view(w.anchor),
            opt_view(r.alias) == opt_view(w.alias),
            r.display@ == display_text(w@),
            r.resolved is None,
    {
        Link {
            target: w.target.clone(),
            anchor: copy_opt(&w.anchor),
            alias: copy_opt(&w.alias),
            display: own(w.display()),
            resolved: None,
        }
    }
}

impl<'a> vstd::std_specs::convert::FromSpecImpl<&'a WikiLink> for Link {
    /// The conversion's meaning is stated on `from` itself.
    open spec fn obeys_from_spec() -> bool {
        false
    }

    open spec fn from_spec(w: &'a WikiLink) -> Link {
        Link { target: w.target, anchor: w.anchor, alias: w.alias, display: arbitrary(), resolved: None }
    }
}

#[derive(Debug, Clone, PartialEq, Eq)]
pub struct NoteView {
    pub path: VaultPath,
    pub name: String,
    pub html: String,
    pub frontmatter: Option<String>,
    pub links: Vec<Link>,
    pub embeds: Vec<Link>,
    pub tags: Vec<String>,
    /// Bytes on disk.
    pub size: usize,
    pub line_ending: String,
    /// True when the file mixes CRLF and LF.
    pub line_endings_mixed: bool,
    /// The note's raw markdown, for the editor.
    pub text: Option<String>,
    /// Content hash of the text as read; a mismatch on save means someone
    /// else wrote to the file in the meantime.
    pub hash: String,
}

/// What the editor calls a line ending.
pub open spec fn ending_name(e: LineEnding) -> Seq<char> {
    match e {
        LineEnding::Lf => "LF"@,
        LineEnding::Crlf => "CRLF"@,
    }
}

/// A wikilink as the wire carries it.
pub open spec fn link_for(l: Link, w: WikiLink) -> bool {
    &&& l.target@ == w.target@
    &&& opt_view(l.anchor) == opt_view(w.anchor)
    &&& opt_view(l.alias) == opt_view(w.alias)
    &&& l.display@ == display_text(w@)
    &&& l.resolved is None
}

fn links_for(ws: &Vec<WikiLink>) -> (r: Vec<Link>)
    ensures
        r@.len() == ws@.len(),
        forall|i: int| 0 <= i < r@.len() ==> link_for(#[trigger] r@[i], ws@[i]),
{
    let mut out: Vec<Link> = Vec::new();
    let mut i: usize = 0;
    while i < ws.len()
        invariant
            0 <= i <= ws@.len(),
            out@.len() == i,
            forall|k: int| 0 <= k < i ==> link_for(#[trigger] out@[k], ws@[k]),
        decreases ws@.len() - i,
    {
        out.push(Link::from(&ws[i]));
        i = i + 1;
    }
    out
}

/// A read note as the shells show it: its rendering, its links flattened for
/// the wire, how its file is written, its content hash as the base for the
/// next save, and its text only when an editor asked for it.
pub fn note_view(path: &VaultPath, rendered: RenderedNote, note: &NoteText, with_text: bool) -> (v: NoteView)
    ensures
        v.path@ == path@,
        encode_utf8(v.name@) == name_bytes(encode_utf8(path@)),
        v.html@ == rendered.html@,
        opt_view(v.frontmatter) == opt_view(rendered.frontmatter),
        v.links@.len() == rendered.links@.len(),
        forall|i: int| 0 <= i < v.links@.len() ==> link_for(#[trigger] v.links@[i], rendered.links@[i]),
        v.embeds@.len() == rendered.embeds@.len(),
        forall|i: int|
            0 <= i < v.embeds@.len() ==> link_for(#[trigger] v.embeds@[i], rendered.embeds@[i]),
        v.tags@ == rendered.tags@,
        v.size == encode_utf8(note@.text).len(),
        v.line_ending@ == ending_name(note@.fidelity.dominant),
        v.line_endings_mixed == note@.fidelity.mixed,
        match v.text {
            Some(t) => with_text && t@ == note@.text,
            None => !with_text,
        },
        v.hash@ == tagged_hash(encode_utf8(note@.text)),
{
    let links = links_for(&rendered.links);
    let embeds = links_for(&rendered.embeds);
    let line_ending = match note.fidelity().line_ending() {
        LineEnding::Lf => own("LF"),
        LineEnding::Crlf => own("CRLF"),
    };
    NoteView {
        name: own(path.file_name()),
        path: path.copied(),
        html: rendered.html,
        frontmatter: rendered.frontmatter,
        links,
        embeds,
        tags: rendered.tags,
        size: note.text().as_bytes().len(),
        line_ending,
        line_endings_mixed: note.fidelity().is_mixed(),
        text: if with_text {
            Some(own(note.text()))
        } else {
            None
        },
        hash: note.content_hash(),
    }
}

#[derive(Debug, Clone, PartialEq, Eq)]
pub struct SaveResult {
    /// False when the encoded bytes already matched what was on disk.
    pub written: bool,
    pub bytes: usize,
    /// The note's hash after saving: the editor's base for the next save.
    pub hash: String,
}

#[derive(Debug, Clone, PartialEq, Eq)]
pub struct TreeView {
    pub tree: Tree,
}

/// One folder when browsing for a vault to open.
#[derive(Debug, Clone, PartialEq, Eq)]
pub struct DirEntry {
    pub name: String,
    pub path: String,
    /// True if it already looks like an Obsidian or ARC vault.
    pub is_vault: bool,
}

#[derive(Debug, Clone, PartialEq, Eq)]
pub struct DirListing {
    pub path: String,
    pub parent: Option<String>,
    pub entries: Vec<DirEntry>,
}

/// One entry on the timeline, with the index needed to restore to it.
#[derive(Debug, Clone, PartialEq, Eq)]
pub struct TimelineEntry {
    /// Position in the note's history: what `restore` takes.
    pub index: usize,
    pub ts: String,
    /// "human" or "agent": decides how the entry is drawn.
    pub actor_kind: String,
    pub actor_id: String,
    pub model: Option<String>,
    pub session: Option<String>,
    pub op: String,
    pub reason: String,
    /// Whether this operation changed the file. A proposal did not.
    pub touched_file: bool,
    /// Lines added and removed, for sizing the timeline bar.
    pub added: usize,
    pub removed: usize,
    pub from_path: Option<String>,
    pub destination: Option<String>,
    pub bytes: Option<u64>,
}

/// A proposal awaiting a decision.
#[derive(Debug, Clone, PartialEq, Eq)]
pub struct Proposal {
    pub index: usize,
    pub ts: String,
    pub actor_id: String,
    pub model: Option<String>,
    pub reason: String,
    /// The unified diff, to decide on.
    pub patch: String,
    pub added: usize,
    pub removed: usize,
}

/// The full diff for one timeline entry.
#[derive(Debug, Clone, PartialEq, Eq)]
pub struct EntryDiff {
    pub index: usize,
    pub patch: String,
    /// Content as of this entry, to preview a restore before doing it.
    pub content: Option<String>,
}

/// Where a client stands with its hub. Never includes the token itself.
#[derive(Debug, Clone, PartialEq, Eq)]
pub struct SyncStatus {
    /// `standalone`, `client` or `hub`.
    pub role: String,
    pub hub: String,
    /// Whether a token is available, without ever saying what it is.
    pub has_token: bool,
    /// `manual`, `daily`, `weekly` or `monthly`.
    pub cadence: String,
    pub hour: u32,
    pub minute: u32,
    pub last_sync_at: Option<String>,
    /// Whether this instance is set up well enough to sync at all.
    pub ready: bool,
    /// Why not, when it is not.
    pub blocked: Option<String>,
}

/// One line of a sync preview.
#[derive(Debug, Clone, PartialEq, Eq)]
pub struct PreviewItem {
    pub path: String,
    /// `push`, `pull`, `push-delete`, `pull-delete`, or a conflict kind.
    pub action: String,
    pub conflict: bool,
}

/// What a save reports: whether it wrote, how many bytes, and the new base hash.
pub fn save_result(saved: Saved, content: &str) -> (r: SaveResult)
    ensures
        r.hash@ == tagged_hash(sb(content)),
        r.written == (saved is Written),
        r.bytes == (match saved {
            Saved::Written { bytes } => bytes,
            Saved::Unchanged => 0,
        }),
{
    let hash = hash_of(content);
    match saved {
        Saved::Written { bytes } => SaveResult { written: true, bytes, hash },
        Saved::Unchanged => SaveResult { written: false, bytes: 0, hash },
    }
}

/// `i` begins a line: the start of the text or just after a `\n`.
pub open spec fn line_start(b: Seq<u8>, i: int) -> bool {
    0 <= i < b.len() && (i == 0 || b[i - 1] == 10u8)
}

/// The line at `i` starts with `c` and is not a `c c c` file header.
pub open spec fn counted_line(b: Seq<u8>, i: int, c: u8) -> bool {
    line_start(b, i) && b[i] == c && !(i + 2 < b.len() && b[i + 1] == c && b[i + 2] == c)
}

/// How many lines from `i` on are counted for `c`.
pub open spec fn count_lines_from(b: Seq<u8>, i: int, c: u8) -> nat
    decreases b.len() - i,
{
    if i < 0 || i >= b.len() {
        0
    } else {
        (if counted_line(b, i, c) {
            1nat
        } else {
            0nat
        }) + count_lines_from(b, i + 1, c)
    }
}

proof fn lemma_count_bound(b: Seq<u8>, i: int, c: u8)
    requires
        0 <= i <= b.len(),
    ensures
        count_lines_from(b, i, c) <= b.len() - i,
    decreases b.len() - i,
{
    if i < b.len() {
        lemma_count_bound(b, i + 1, c);
    }
}

/// Added and removed line counts of a unified diff: lines starting `+` or
/// `-`, not counting the `+++` and `---` file headers.
pub fn diff_counts(patch: Option<&str>) -> (r: (usize, usize))
    ensures
        match patch {
            Some(p) => r.0 == count_lines_from(sb(p), 0, 43u8) && r.1 == count_lines_from(
                sb(p),
                0,
                45u8,
            ),
            None => r == (0usize, 0usize),
        },
{
    let p = match patch {
        Some(p) => p,
        None => return (0, 0),
    };
    let b = p.as_bytes();
    let mut added: usize = 0;
    let mut removed: usize = 0;
    let mut i: usize = b.len();
    while i > 0
        invariant
            0 <= i <= b.len(),
            added == count_lines_from(b@, i as int, 43u8),
            removed == count_lines_from(b@, i as int, 45u8),
        decreases i,
    {
        proof {
            lemma_count_bound(b@, i as int, 43u8);
            lemma_count_bound(b@, i as int, 45u8);
        }
        i = i - 1;
        let starts = i == 0 || b[i - 1] == 10u8;
        if starts && b[i] == 43u8 && !(b.len() - i > 2 && b[i + 1] == 43u8 && b[i + 2] == 43u8) {
            added = added + 1;
        } else if starts && b[i] == 45u8 && !(b.len() - i > 2 && b[i + 1] == 45u8 && b[i + 2]
            == 45u8) {
            removed = removed + 1;
        }
    }
    (added, removed)
}

/// The wire name of an actor's kind.
pub open spec fn kind_name(k: ActorKind) -> Seq<char> {
    match k {
        ActorKind::Human => "human"@,
        ActorKind::Agent => "agent"@,
    }
}

/// A ledger entry as the timeline shows it.
pub fn to_timeline(index: usize, e: &Entry) -> (r: TimelineEntry)
    ensures
        r.index == index,
        r.ts@ == e.ts@,
        r.actor_kind@ == kind_name(e.actor.kind),
        r.actor_id@ == e.actor.id@,
        opt_view(r.model) == opt_view(e.actor.model),
        opt_view(r.session) == opt_view(e.actor.session),
        r.op@ == op_name(e.op),
        r.reason@ == e.reason@,
        r.touched_file == op_touches_file(e.op),
        (r.added, r.removed) == (match e.patch {
            Some(p) => (count_lines_from(encode_utf8(p@), 0, 43u8) as usize, count_lines_from(
                encode_utf8(p@),
                0,
                45u8,
            ) as usize),
            None => (0usize, 0usize),
        }),
        opt_view(r.from_path) == opt_view(e.from_path),
        opt_view(r.destination) == opt_view(e.destination),
        r.bytes == e.bytes,
{
    let (added, removed) = match &e.patch {
        Some(p) => diff_counts(Some(p.as_str())),
        None => diff_counts(None),
    };
    TimelineEntry {
        index,
        ts: e.ts.clone(),
        actor_kind: match e.actor.kind {
            ActorKind::Human => own("human"),
            ActorKind::Agent => own("agent"),
        },
        actor_id: e.actor.id.clone(),
        model: copy_opt(&e.actor.model),
        session: copy_opt(&e.actor.session),
        op: own(e.op.as_str()),
        reason: e.reason.clone(),
        touched_file: e.op.touches_file(),
        added,
        removed,
        from_path: copy_opt(&e.from_path),
        destination: copy_opt(&e.destination),
        bytes: e.bytes,
    }
}

/// The latest entry of a history that changed the file, if any.
pub open spec fn last_touching(es: Seq<Entry>) -> Option<int>
    decreases es.len(),
{
    if es.len() == 0 {
        None
    } else if op_touches_file(es.last().op) {
        Some(es.len() - 1)
    } else {
        last_touching(es.drop_last())
    }
}

/// Who wrote what a canvas card shows, from the history of the note behind
/// it: the kind and model of the latest entry that changed the file. A card
/// with no such entry gets no author rather than an invented one.
pub fn card_author(entries: &Vec<Entry>) -> (r: (Option<String>, Option<String>))
    ensures
        match last_touching(entries@) {
            Some(i) => (r.0 matches Some(k) && k@ == kind_name(entries@[i].actor.kind)) && opt_view(r.1)
                == opt_view(entries@[i].actor.model),
            None => r.0 is None && r.1 is None,
        },
{
    let mut i: usize = entries.len();
    assert(entries@.take(i as int) =~= entries@);
    while i > 0
        invariant
            0 <= i <= entries@.len(),
            last_touching(entries@) == last_touching(entries@.take(i as int)),
        decreases i,
    {
        let e = &entries[i - 1];
        assert(entries@.take(i as int).last() == entries@[i - 1]);
        if e.op.touches_file() {
            let kind = match e.actor.kind {
                ActorKind::Human => own("human"),
                ActorKind::Agent => own("agent"),
            };
            let model = match &e.actor.model {
                Some(m) => Some(own(m.as_str())),
                None => None,
            };
            return (Some(kind), model);
        }
        assert(entries@.take(i as int).drop_last() =~= entries@.take(i - 1));
        i = i - 1;
    }
    (None, None)
}

/// Whose history gives a canvas card its author: the note a file card shows,
/// when its `file` is a vault path, and otherwise the canvas itself.
pub fn card_history_path(file: Option<String>, canvas: &VaultPath) -> (r: VaultPath)
    ensures
        match file {
            Some(f) => if crate::path::path_problem(f@) is None {
                r@ == crate::path::normalise(f@)
            } else {
                r@ == canvas@
            },
            None => r@ == canvas@,
        },
{
    match file {
        Some(f) => match VaultPath::new(f.as_str()) {
            Ok(p) => p,
            Err(_) => canvas.copied(),
        },
        None => canvas.copied(),
    }
}

/// What an edit reports: whether it wrote, how many bytes, and the hash of
/// the text just saved as a read will see it (line endings normalised, a
/// byte-order mark dropped), so the editor's next save has the right base
/// whether or not bytes were written. `current` is the note's hash before
/// the save, kept for text that does not decode.
pub fn edit_result(saved: Saved, text: &str, current: String) -> (r: SaveResult)
    ensures
        r.written == (saved is Written),
        r.bytes == (match saved {
            Saved::Written { bytes } => bytes,
            Saved::Unchanged => 0,
        }),
        r.hash@ == (if vstd::utf8::valid_utf8(crate::fidelity::body_of(sb(text))) {
            tagged_hash(crate::fidelity::collapse_crlf(crate::fidelity::body_of(sb(text))))
        } else {
            current@
        }),
{
    let hash = match NoteText::decode(text.as_bytes()) {
        Some(n) => n.content_hash(),
        None => current,
    };
    match saved {
        Saved::Written { bytes } => SaveResult { written: true, bytes, hash },
        Saved::Unchanged => SaveResult { written: false, bytes: 0, hash },
    }
}

} // verus!
