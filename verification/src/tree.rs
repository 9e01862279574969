//! The vault file tree, as a flat list with parent indices.
//!
//! Entries are ordered the way Obsidian orders them: directories first, then
//! files, each case-insensitively. The walk itself reads the disk; what the
//! tree is, and which directories it never descends into, are stated here.
use vstd::prelude::*;
use vstd::utf8::*;
use crate::path::{extension_bytes, eq_ignore_ascii_case, last_index_of, name_bytes, VaultPath};
use crate::text::{own, sb, str_eq};

verus! {

/// One row of the tree.
#[derive(Debug, Clone, PartialEq, Eq)]
pub struct TreeEntry {
    pub path: VaultPath,
    /// The display name: the last path component.
    pub name: String,
    pub is_dir: bool,
    /// Index into [`Tree::entries`], or `None` for a top-level entry.
    pub parent: Option<usize>,
    /// Bytes on disk; `0` for a directory.
    pub size: u64,
}

/// Something the scan could not use, and why.
#[derive(Debug, Clone, PartialEq, Eq)]
pub struct Skipped {
    pub path: String,
    pub reason: String,
}

/// The whole tree.
#[derive(Debug, Clone, PartialEq, Eq)]
pub struct Tree {
    pub entries: Vec<TreeEntry>,
    pub note_count: usize,
    pub canvas_count: usize,
    /// Entries the scan could not use, surfaced rather than swallowed.
    pub skipped: Vec<Skipped>,
}

/// Every parent index points at an earlier directory entry: the walk yields
/// a directory before anything inside it.
pub open spec fn parents_precede(entries: Seq<TreeEntry>) -> bool {
    forall|i: int|
        0 <= i < entries.len() ==> match #[trigger] entries[i].parent {
            Some(p) => 0 <= p < i && entries[p as int].is_dir,
            None => true,
        }
}

impl Default for Tree {
    fn default() -> (r: Tree)
        ensures
            r.entries@.len() == 0,
            r.note_count == 0,
            r.canvas_count == 0,
            r.skipped@.len() == 0,
    {
        Tree { entries: Vec::new(), note_count: 0, canvas_count: 0, skipped: Vec::new() }
    }
}

/// Directory names the walk never enters: infrastructure, not notes.
pub open spec fn skip_dir_name(name: Seq<char>) -> bool {
    (name.len() > 0 && name[0] == '.') || name == ".arc"@ || name == ".obsidian"@ || name
        == ".git"@ || name == ".trash"@ || name == ".stfolder"@ || name == ".stversions"@
}

/// Whether the walk descends into a directory of this name. Everything
/// beginning with `.` is skipped, as a file manager hides dotfiles; the named
/// infrastructure directories all begin with one.
pub fn skips_dir(name: &str) -> (r: bool)
    ensures
        r == skip_dir_name(name@),
{
    proof {
        reveal_strlit(".arc");
        reveal_strlit(".obsidian");
        reveal_strlit(".git");
        reveal_strlit(".trash");
        reveal_strlit(".stfolder");
        reveal_strlit(".stversions");
    }
    match crate::text::first_char(name) {
        Some(c) => c == '.',
        None => false,
    }
}

/// The parent folder of a vault path, as text: everything before the last `/`.
pub open spec fn parent_text(p: Seq<char>) -> Option<Seq<char>> {
    match last_index_of(encode_utf8(p), 47u8) {
        Some(i) => Some(decode_utf8(encode_utf8(p).take(i))),
        None => None,
    }
}

/// The most recent directory entry among the first `n` whose path is `dir`.
pub open spec fn last_dir_index(entries: Seq<TreeEntry>, dir: Seq<char>, n: int) -> Option<int>
    decreases n,
{
    if n <= 0 {
        None
    } else if entries[n - 1].is_dir && entries[n - 1].path@ == dir {
        Some(n - 1)
    } else {
        last_dir_index(entries, dir, n - 1)
    }
}

/// The parent index an entry at `p` gets: its folder's entry, when the walk
/// has produced one.
pub open spec fn parent_index(entries: Seq<TreeEntry>, p: Seq<char>) -> Option<int> {
    match parent_text(p) {
        Some(d) => last_dir_index(entries, d, entries.len() as int),
        None => None,
    }
}

pub open spec fn is_note_path(p: Seq<char>) -> bool {
    extension_bytes(encode_utf8(p)) matches Some(e) && eq_ignore_ascii_case(e, seq![109u8, 100u8])
}

pub open spec fn is_canvas_path(p: Seq<char>) -> bool {
    extension_bytes(encode_utf8(p)) matches Some(e) && eq_ignore_ascii_case(
        e,
        seq![99u8, 97u8, 110u8, 118u8, 97u8, 115u8],
    )
}

proof fn lemma_last_dir_index(entries: Seq<TreeEntry>, dir: Seq<char>, n: int)
    requires
        0 <= n <= entries.len(),
    ensures
        last_dir_index(entries, dir, n) matches Some(k) ==> 0 <= k < n && entries[k].is_dir,
    decreases n,
{
    if n > 0 {
        lemma_last_dir_index(entries, dir, n - 1);
    }
}

/// The most recent directory entry whose path is `dir`.
fn find_dir(entries: &Vec<TreeEntry>, dir: &str) -> (r: Option<usize>)
    ensures
        r == (match last_dir_index(entries@, dir@, entries@.len() as int) {
            Some(k) => Some(k as usize),
            None => None::<usize>,
        }),
        r matches Some(k) ==> k < entries@.len() && entries@[k as int].is_dir,
{
    proof {
        lemma_last_dir_index(entries@, dir@, entries@.len() as int);
    }
    let mut k: usize = entries.len();
    while k > 0
        invariant
            0 <= k <= entries@.len(),
            last_dir_index(entries@, dir@, entries@.len() as int) == last_dir_index(
                entries@,
                dir@,
                k as int,
            ),
        decreases k,
    {
        if entries[k - 1].is_dir && str_eq(entries[k - 1].path.as_str(), dir) {
            return Some(k - 1);
        }
        k = k - 1;
    }
    None
}

/// Adds one walked entry: its parent is found among the directories already
/// added, and notes and canvases are counted.
pub fn add_entry(tree: &mut Tree, path: VaultPath, is_dir: bool, size: u64)
    requires
        parents_precede(old(tree).entries@),
        old(tree).note_count < usize::MAX,
        old(tree).canvas_count < usize::MAX,
    ensures
        final(tree).entries@.len() == old(tree).entries@.len() + 1,
        final(tree).entries@.drop_last() == old(tree).entries@,
        final(tree).entries@.last().path@ == path@,
        encode_utf8(final(tree).entries@.last().name@) == name_bytes(encode_utf8(path@)),
        final(tree).entries@.last().is_dir == is_dir,
        final(tree).entries@.last().size == (if is_dir { 0 } else { size }),
        final(tree).entries@.last().parent == (match parent_index(old(tree).entries@, path@) {
            Some(k) => Some(k as usize),
            None => None,
        }),
        parents_precede(final(tree).entries@),
        final(tree).note_count == old(tree).note_count + (if !is_dir && is_note_path(path@) {
            1int
        } else {
            0
        }),
        final(tree).canvas_count == old(tree).canvas_count + (if !is_dir && !is_note_path(path@)
            && is_canvas_path(path@) {
            1int
        } else {
            0
        }),
        final(tree).skipped@ == old(tree).skipped@,
{
    let ghost old_entries = tree.entries@;
    if !is_dir {
        if path.is_markdown() {
            tree.note_count = tree.note_count + 1;
        } else if path.is_canvas() {
            tree.canvas_count = tree.canvas_count + 1;
        }
    }
    let parent = match path.parent() {
        Some(dir) => {
            let d = dir.as_str();
            proof {
                vstd::utf8::encode_utf8_decode_utf8(dir@);
            }
            let found = find_dir(&tree.entries, d);
            found
        },
        None => None,
    };
    let name = own(path.file_name());
    let entry = TreeEntry { path, name, is_dir, parent, size: if is_dir { 0 } else { size } };
    tree.entries.push(entry);
    proof {
        let s = tree.entries@;
        assert(s.drop_last() =~= old_entries);
        assert forall|i: int| 0 <= i < s.len() implies match #[trigger] s[i].parent {
            Some(p) => 0 <= p < i && s[p as int].is_dir,
            None => true,
        } by {
            if i < s.len() - 1 {
                assert(s[i] == old_entries[i]);
                if let Some(p) = s[i].parent {
                    assert(s[p as int] == old_entries[p as int]);
                }
            } else {
                assert(s[i].parent == parent);
                if let Some(p) = parent {
                    assert(p < old_entries.len() && old_entries[p as int].is_dir);
                    assert(s[p as int] == old_entries[p as int]);
                }
            }
        }
    }
}

/// Records something the walk could not use.
pub fn add_skipped(tree: &mut Tree, path: &str, reason: &str)
    ensures
        final(tree).entries@ == old(tree).entries@,
        final(tree).note_count == old(tree).note_count,
        final(tree).canvas_count == old(tree).canvas_count,
        final(tree).skipped@.len() == old(tree).skipped@.len() + 1,
        final(tree).skipped@.drop_last() == old(tree).skipped@,
        final(tree).skipped@.last().path@ == path@,
        final(tree).skipped@.last().reason@ == reason@,
{
    let ghost before = tree.skipped@;
    tree.skipped.push(Skipped { path: own(path), reason: own(reason) });
    assert(tree.skipped@.drop_last() =~= before);
}

/// Whether a walk lists `a` before `b`: directories before files, then by
/// name ignoring case, then by name exactly.
pub open spec fn listed_before(a_dir: bool, a: Seq<char>, b_dir: bool, b: Seq<char>) -> bool {
    if a_dir != b_dir {
        a_dir
    } else if crate::text::lowercase(a) != crate::text::lowercase(b) {
        crate::listing::lex_lt(crate::text::lowercase(a), crate::text::lowercase(b))
    } else {
        crate::listing::lex_lt(a, b)
    }
}

/// How the walk orders two entries of one directory, for the walker's sort:
/// directories first, then files, each by name ignoring case, and names
/// that differ only in case by their exact spelling.
pub fn entry_order(a_dir: bool, a: &str, b_dir: bool, b: &str) -> (r: std::cmp::Ordering)
    ensures
        (r == std::cmp::Ordering::Less) == listed_before(a_dir, a@, b_dir, b@),
        (r == std::cmp::Ordering::Greater) == listed_before(b_dir, b@, a_dir, a@),
        (r == std::cmp::Ordering::Equal) == (a_dir == b_dir && a@ == b@),
{
    if a_dir != b_dir {
        return if a_dir {
            std::cmp::Ordering::Less
        } else {
            std::cmp::Ordering::Greater
        };
    }
    let la = crate::text::to_lower(a);
    let lb = crate::text::to_lower(b);
    let ka = crate::text::chars_of(la.as_str());
    let kb = crate::text::chars_of(lb.as_str());
    if crate::listing::lex_less(ka.as_slice(), kb.as_slice()) {
        proof {
            crate::listing::lemma_lex_irreflexive(ka@);
            crate::listing::lemma_lex_asymmetric(ka@, kb@);
        }
        return std::cmp::Ordering::Less;
    }
    if crate::listing::lex_less(kb.as_slice(), ka.as_slice()) {
        proof {
            crate::listing::lemma_lex_irreflexive(ka@);
        }
        return std::cmp::Ordering::Greater;
    }
    proof {
        crate::listing::lemma_lex_total(ka@, kb@);
    }
    let xa = crate::text::chars_of(a);
    let xb = crate::text::chars_of(b);
    if crate::listing::lex_less(xa.as_slice(), xb.as_slice()) {
        proof {
            crate::listing::lemma_lex_irreflexive(xa@);
            crate::listing::lemma_lex_asymmetric(xa@, xb@);
        }
        std::cmp::Ordering::Less
    } else if crate::listing::lex_less(xb.as_slice(), xa.as_slice()) {
        proof {
            crate::listing::lemma_lex_irreflexive(xa@);
        }
        std::cmp::Ordering::Greater
    } else {
        proof {
            crate::listing::lemma_lex_total(xa@, xb@);
        }
        std::cmp::Ordering::Equal
    }
}


/// The walk never enters a directory whose name begins with `.`, which
/// covers `.arc`, `.obsidian`, `.git`, `.trash`, `.stfolder` and
/// `.stversions`; every other directory it enters.
pub proof fn law_dot_folders_are_never_walked(name: Seq<char>)
    ensures
        skip_dir_name(name) <==> (name.len() > 0 && name[0] == '.'),
        skip_dir_name(".arc"@),
        skip_dir_name(".obsidian"@),
        skip_dir_name(".git"@),
        skip_dir_name(".trash"@),
        skip_dir_name(".stfolder"@),
        skip_dir_name(".stversions"@),
{
    reveal_strlit(".arc");
    reveal_strlit(".obsidian");
    reveal_strlit(".git");
    reveal_strlit(".trash");
    reveal_strlit(".stfolder");
    reveal_strlit(".stversions");
}

} // verus!
