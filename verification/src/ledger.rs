//! The ledger's decisions: what an entry records, which content a restore
//! goes back to, and how content-addressed objects are named and checked.
//!
//! Restore is a lookup by content hash, never a patch replay; the diff kept
//! on an entry is for a human to read.
use vstd::prelude::*;
use vstd::utf8::*;
use crate::entry::{dec_digits, decimal, Actor, Entry, Op};
use crate::error::{public_text, Error};
use crate::hash::{blake3_hex, blake3_hex_of, tagged_hash, tagged_hash_of};
use crate::text::{own, push_chars, sb, slice, str_eq, utf8_str};

verus! {

broadcast use vstd::utf8::encode_utf8_valid_utf8;

#[derive(Debug, Clone, PartialEq, Eq)]
pub enum LedgerError {
    /// `kind` is the I/O error kind in words.
    Io { path: String, kind: String },
    BadHash(String),
    MissingObject(String),
    CorruptObject(String),
    NoSuchEntry { index: usize, len: usize },
    NothingToRestore { index: usize },
    Core(Error),
}

pub open spec fn ledger_public_text(e: LedgerError) -> Seq<char> {
    match e {
        LedgerError::Io { kind, .. } => "ledger io error: "@ + kind@,
        LedgerError::BadHash(_) => "not a valid content hash"@,
        LedgerError::MissingObject(_) => "that version is no longer stored"@,
        LedgerError::CorruptObject(_) => "that version failed its integrity check"@,
        LedgerError::NoSuchEntry { index, len } => "no entry "@ + dec_digits(index as nat)
            + "; this note has "@ + dec_digits(len as nat),
        LedgerError::NothingToRestore { index } => "entry "@ + dec_digits(index as nat)
            + " has no content to restore"@,
        LedgerError::Core(e) => public_text(e),
    }
}

impl LedgerError {
    /// A message safe to send to a caller that may be remote: never a host path.
    pub fn public(&self) -> (r: String)
        ensures
            r@ == ledger_public_text(*self),
    {
        let mut out = String::new();
        match self {
            LedgerError::Io { kind, .. } => {
                push_chars(&mut out, "ledger io error: ");
                push_chars(&mut out, kind.as_str());
            },
            LedgerError::BadHash(_) => push_chars(&mut out, "not a valid content hash"),
            LedgerError::MissingObject(_) => push_chars(&mut out, "that version is no longer stored"),
            LedgerError::CorruptObject(_) => push_chars(
                &mut out,
                "that version failed its integrity check",
            ),
            LedgerError::NoSuchEntry { index, len } => {
                push_chars(&mut out, "no entry ");
                let i = decimal(*index as u64);
                push_chars(&mut out, i.as_str());
                push_chars(&mut out, "; this note has ");
                let n = decimal(*len as u64);
                push_chars(&mut out, n.as_str());
            },
            LedgerError::NothingToRestore { index } => {
                push_chars(&mut out, "entry ");
                let i = decimal(*index as u64);
                push_chars(&mut out, i.as_str());
                push_chars(&mut out, " has no content to restore");
            },
            LedgerError::Core(e) => {
                let p = e.public();
                push_chars(&mut out, p.as_str());
            },
        }
        assert(out@ =~= ledger_public_text(*self));
        out
    }
}

/// A unified diff of two texts, for display only.
pub uninterp spec fn unified_diff(before: Seq<char>, after: Seq<char>) -> Seq<char>;

/// `similar::TextDiff::from_lines(before, after).unified_diff()` with three
/// lines of context and `before`/`after` headers.
///
/// Trusted: the diff is named rather than described; the contract claims only
/// that it is a function of the two texts.
#[verifier::external_body]
pub fn diff(before: &str, after: &str) -> (r: String)
    ensures
        r@ == unified_diff(before@, after@),
{
    similar::TextDiff::from_lines(before, after)
        .unified_diff()
        .context_radius(3)
        .header("before", "after")
        .to_string()
}

/// The patch an entry carries: a diff when content changed, or when it was created.
pub open spec fn patch_spec(before: Option<Seq<char>>, after: Option<Seq<char>>) -> Option<Seq<char>> {
    match (before, after) {
        (Some(b), Some(a)) => if b != a {
            Some(unified_diff(b, a))
        } else {
            None
        },
        (None, Some(a)) => Some(unified_diff(seq![], a)),
        _ => None,
    }
}

pub open spec fn str_opt(o: Option<&str>) -> Option<Seq<char>> {
    match o {
        Some(s) => Some(s@),
        None => None,
    }
}

pub open spec fn string_opt(o: Option<String>) -> Option<Seq<char>> {
    match o {
        Some(s) => Some(s@),
        None => None,
    }
}

pub fn patch_for(before: Option<&str>, after: Option<&str>) -> (r: Option<String>)
    ensures
        string_opt(r) == patch_spec(str_opt(before), str_opt(after)),
{
    match (before, after) {
        (Some(b), Some(a)) => if !str_eq(b, a) {
            Some(diff(b, a))
        } else {
            None
        },
        (None, Some(a)) => {
            let empty = "";
            proof {
                reveal_strlit("");
            }
            assert(empty@ =~= Seq::<char>::empty());
            Some(diff(empty, a))
        },
        _ => None,
    }
}

/// How the object store names content: `blake3:<hex>` of its bytes.
///
/// Every hash this names content by is one the object store accepts.
pub fn hash_of(content: &str) -> (r: String)
    ensures
        r@ == tagged_hash(sb(content)),
        valid_hash(encode_utf8(r@)),
{
    let r = tagged_hash_of(content.as_bytes());
    proof {
        lemma_tagged_hashes_are_valid(sb(content));
    }
    r
}

/// A tagged BLAKE3 hash passes the object store's check.
pub proof fn lemma_tagged_hashes_are_valid(data: Seq<u8>)
    requires
        crate::hash::well_formed_hex(blake3_hex(data)),
    ensures
        valid_hash(encode_utf8(tagged_hash(data))),
{
    crate::hash::lemma_tagged_hash_bytes(data);
    let b = encode_utf8(tagged_hash(data));
    assert(b.take(7) == prefix_bytes());
    let h = hex_part(b);
    assert(h =~= b.subrange(7, 71));
    assert forall|k: int| 0 <= k < h.len() implies is_hex_byte(#[trigger] h[k]) by {
        let c = tagged_hash(data)[k + 7];
        assert(b[k + 7] == c as u8);
        assert(crate::hash::is_lower_hex(c));
    }
}

pub open spec fn hash_opt(o: Option<&str>) -> Option<Seq<char>> {
    match o {
        Some(c) => Some(tagged_hash(sb(c))),
        None => None,
    }
}

fn hash_option(o: Option<&str>) -> (r: Option<String>)
    ensures
        string_opt(r) == hash_opt(o),
{
    match o {
        Some(c) => Some(hash_of(c)),
        None => None,
    }
}

/// The entry for a change already made: both versions named by hash, and a
/// diff for display.
pub fn change_entry(
    actor: Actor,
    op: Op,
    reason: &str,
    before: Option<&str>,
    after: Option<&str>,
) -> (r: Entry)
    ensures
        r.actor == actor,
        r.op == op,
        r.reason@ == reason@,
        string_opt(r.before) == hash_opt(before),
        string_opt(r.after) == hash_opt(after),
        string_opt(r.patch) == patch_spec(str_opt(before), str_opt(after)),
        r.from_path is None && r.destination is None && r.bytes is None,
{
    let b = hash_option(before);
    let a = hash_option(after);
    let p = patch_for(before, after);
    Entry::new(actor, op, reason).with_hashes(b, a).with_patch(p)
}

/// The entry for an agent's proposal. The note itself is not touched.
pub fn proposal_entry(actor: Actor, reason: &str, current: &str, proposed: &str) -> (r: Entry)
    ensures
        r.actor == actor,
        r.op == Op::Propose,
        r.reason@ == reason@,
        r.before matches Some(h) && h@ == tagged_hash(sb(current)),
        r.after matches Some(h) && h@ == tagged_hash(sb(proposed)),
        r.patch matches Some(p) && p@ == unified_diff(current@, proposed@),
        r.from_path is None && r.destination is None && r.bytes is None,
{
    let b = hash_of(current);
    let a = hash_of(proposed);
    let p = diff(current, proposed);
    Entry::new(actor, Op::Propose, reason).with_hashes(Some(b), Some(a)).with_patch(Some(p))
}

/// The entry for a refused proposal: it names what was refused, and nothing
/// is written to the note.
pub fn reject_entry(actor: Actor, reason: &str, proposed: &str) -> (r: Entry)
    ensures
        r.actor == actor,
        r.op == Op::Reject,
        r.reason@ == reason@,
        r.before is None,
        r.after matches Some(h) && h@ == tagged_hash(sb(proposed)),
        r.patch is None,
        r.from_path is None && r.destination is None && r.bytes is None,
{
    let a = hash_of(proposed);
    Entry::new(actor, Op::Reject, reason).with_hashes(None, Some(a))
}

/// The entry for vault bytes leaving the machine.
pub fn egress_entry(actor: Actor, destination: &str, bytes: u64) -> (r: Entry)
    ensures
        r.actor == actor,
        r.op == Op::Egress,
        r.reason@ == "vault content sent off this machine"@,
        r.before is None && r.after is None && r.patch is None,
        r.from_path is None,
        r.destination matches Some(d) && d@ == destination@,
        r.bytes == Some(bytes),
{
    let mut e = Entry::new(actor, Op::Egress, "vault content sent off this machine");
    e.destination = Some(own(destination));
    e.bytes = Some(bytes);
    e
}

/// The entry recording a rename; the content is unchanged, so both hashes agree.
pub fn rename_entry(actor: Actor, from: &str, content: &str) -> (r: Entry)
    ensures
        r.actor == actor,
        r.op == Op::Rename,
        r.reason@ == "renamed from "@ + from@,
        r.before matches Some(h) && h@ == tagged_hash(sb(content)),
        r.after matches Some(h) && h@ == tagged_hash(sb(content)),
        r.patch is None,
        r.from_path matches Some(f) && f@ == from@,
        r.destination is None && r.bytes is None,
{
    let mut reason = String::new();
    push_chars(&mut reason, "renamed from ");
    push_chars(&mut reason, from);
    let h1 = hash_of(content);
    let h2 = hash_of(content);
    let mut e = Entry::new(actor, Op::Rename, reason.as_str()).with_hashes(Some(h1), Some(h2));
    e.from_path = Some(own(from));
    e
}

/// The most recent `after` hash among the first `k` entries.
pub open spec fn last_after(es: Seq<Entry>, k: int) -> Option<String>
    decreases k,
{
    if k <= 0 {
        None
    } else if es[k - 1].after is Some {
        es[k - 1].after
    } else {
        last_after(es, k - 1)
    }
}

/// Which content a restore to entry `index` goes back to. A rejection records
/// what was refused, not a state the note was in, so restoring "to" one means
/// the state before it.
pub open spec fn restore_spec(es: Seq<Entry>, index: int) -> Result<String, LedgerError> {
    if index >= es.len() {
        Err(LedgerError::NoSuchEntry { index: index as usize, len: es.len() as usize })
    } else if es[index].op == Op::Reject {
        match last_after(es, index) {
            Some(h) => Ok(h),
            None => Err(LedgerError::NothingToRestore { index: index as usize }),
        }
    } else {
        match es[index].after {
            Some(h) => Ok(h),
            None => Err(LedgerError::NothingToRestore { index: index as usize }),
        }
    }
}

pub open spec fn same_result(a: Result<String, LedgerError>, b: Result<String, LedgerError>) -> bool {
    match (a, b) {
        (Ok(x), Ok(y)) => x@ == y@,
        (Err(x), Err(y)) => x == y,
        _ => false,
    }
}

/// The content hash a restore to entry `index` needs.
pub fn restore_target(entries: &Vec<Entry>, index: usize) -> (r: Result<String, LedgerError>)
    ensures
        same_result(r, restore_spec(entries@, index as int)),
{
    if index >= entries.len() {
        return Err(LedgerError::NoSuchEntry { index, len: entries.len() });
    }
    let e = &entries[index];
    if e.op == Op::Reject {
        let mut k = index;
        while k > 0
            invariant
                0 <= k <= index < entries.len(),
                entries@[index as int].op == Op::Reject,
                last_after(entries@, index as int) == last_after(entries@, k as int),
            decreases k,
        {
            if let Some(h) = &entries[k - 1].after {
                assert(last_after(entries@, k as int) == entries@[k - 1].after);
                return Ok(h.clone());
            }
            k = k - 1;
        }
        Err(LedgerError::NothingToRestore { index })
    } else {
        match &e.after {
            Some(h) => Ok(h.clone()),
            None => Err(LedgerError::NothingToRestore { index }),
        }
    }
}

pub open spec fn is_hex_byte(x: u8) -> bool {
    (48u8 <= x <= 57u8) || (97u8 <= x <= 102u8) || (65u8 <= x <= 70u8)
}

pub open spec fn prefix_bytes() -> Seq<u8> {
    seq![98u8, 108u8, 97u8, 107u8, 101u8, 51u8, 58u8]
}

/// The hex part of a content hash: without its `blake3:` prefix, if it has one.
pub open spec fn hex_part(h: Seq<u8>) -> Seq<u8> {
    if h.len() >= 7 && h.take(7) == prefix_bytes() {
        h.subrange(7, h.len() as int)
    } else {
        h
    }
}

/// A hash the object store accepts: at least four hex digits.
pub open spec fn valid_hash(h: Seq<u8>) -> bool {
    hex_part(h).len() >= 4 && forall|k: int| 0 <= k < hex_part(h).len() ==> is_hex_byte(
        #[trigger] hex_part(h)[k],
    )
}

fn has_blake3_prefix(b: &[u8]) -> (r: bool)
    ensures
        r == (b@.len() >= 7 && b@.take(7) == prefix_bytes()),
{
    let r = b.len() >= 7 && b[0] == 98u8 && b[1] == 108u8 && b[2] == 97u8 && b[3] == 107u8 && b[4]
        == 101u8 && b[5] == 51u8 && b[6] == 58u8;
    proof {
        if b@.len() >= 7 {
            if r {
                assert(b@.take(7) =~= prefix_bytes());
            } else if b@.take(7) == prefix_bytes() {
                assert(b@.take(7)[0] == b@[0]);
                assert(b@.take(7)[6] == b@[6]);
                assert(b@.take(7)[1] == b@[1]);
                assert(b@.take(7)[2] == b@[2]);
                assert(b@.take(7)[3] == b@[3]);
                assert(b@.take(7)[4] == b@[4]);
                assert(b@.take(7)[5] == b@[5]);
            }
        }
    }
    r
}

/// Where an object lives: `blake3:abcdef…` goes in directory `ab`, file `cdef…`,
/// fanned out like git so no directory grows too large.
pub fn object_location(hash: &str) -> (r: Result<(String, String), LedgerError>)
    ensures
        match r {
            Ok((dir, file)) => valid_hash(sb(hash)) && encode_utf8(dir@) == hex_part(sb(hash)).take(2)
                && encode_utf8(file@) == hex_part(sb(hash)).subrange(2, hex_part(sb(hash)).len() as int),
            Err(e) => !valid_hash(sb(hash)) && (e matches LedgerError::BadHash(h) && h@ == hash@),
        },
{
    let b = hash.as_bytes();
    let ghost hb = b@;
    proof {
        is_char_boundary_start_end_of_seq(hb);
    }
    let start: usize = if has_blake3_prefix(b) {
        proof {
            crate::text::lemma_after_ascii_boundary(hb, 7);
        }
        7
    } else {
        0
    };
    let hex = slice(hash, start, b.len());
    let h = hex.as_bytes();
    assert(h@ =~= hex_part(hb));
    if h.len() < 4 {
        return Err(LedgerError::BadHash(own(hash)));
    }
    let mut i: usize = 0;
    while i < h.len()
        invariant
            h@ == hex_part(hb),
            hb == sb(hash),
            0 <= i <= h.len(),
            forall|k: int| 0 <= k < i ==> is_hex_byte(#[trigger] h@[k]),
        decreases h.len() - i,
    {
        let x = h[i];
        if !((48u8 <= x && x <= 57u8) || (97u8 <= x && x <= 102u8) || (65u8 <= x && x <= 70u8)) {
            assert(!is_hex_byte(hex_part(hb)[i as int]));
            return Err(LedgerError::BadHash(own(hash)));
        }
        i = i + 1;
    }
    proof {
        let hv = h@;
        is_char_boundary_start_end_of_seq(hv);
        crate::text::lemma_ascii_boundary(hv, 2);
    }
    let dir = slice(hex, 0, 2);
    let file = slice(hex, 2, h.len());
    assert(sb(dir) =~= h@.take(2));
    Ok((own(dir), own(file)))
}

/// A hash with its `blake3:` prefix, adding it when absent.
pub open spec fn normalised(h: Seq<u8>) -> Seq<u8> {
    if h.len() >= 7 && h.take(7) == prefix_bytes() {
        h
    } else {
        prefix_bytes() + h
    }
}

/// What a stored object read back as `bytes` may be returned as: only text
/// that still hashes to the name it was stored under.
pub fn verify_object(hash: &str, bytes: &[u8]) -> (r: Result<String, LedgerError>)
    ensures
        match r {
            Ok(c) => valid_utf8(bytes@) && encode_utf8(c@) == bytes@ && encode_utf8(
                tagged_hash(bytes@),
            ) == normalised(sb(hash)),
            Err(e) => (!valid_utf8(bytes@) || encode_utf8(tagged_hash(bytes@)) != normalised(sb(hash)))
                && (e matches LedgerError::CorruptObject(h) && h@ == hash@),
        },
{
    let content = match utf8_str(bytes) {
        Some(s) => s,
        None => return Err(LedgerError::CorruptObject(own(hash))),
    };
    let actual = tagged_hash_of(bytes);
    let b = hash.as_bytes();
    let mut expected = String::new();
    assert(encode_utf8(expected@) =~= Seq::<u8>::empty());
    let pre = has_blake3_prefix(b);
    if !pre {
        proof {
            reveal_strlit("blake3:");
        }
        crate::text::push_all(&mut expected, "blake3:");
    }
    crate::text::push_all(&mut expected, hash);
    proof {
        reveal_strlit("blake3:");
        crate::text::lemma_encode_concat(seq!['b', 'l', 'a', 'k', 'e', '3', ':'], seq![]);
        assert(encode_utf8(seq!['b', 'l', 'a', 'k', 'e', '3', ':']) =~= prefix_bytes()) by {
            vstd::utf8::is_ascii_chars_encode_utf8(seq!['b', 'l', 'a', 'k', 'e', '3', ':']);
        }
        if pre {
            assert(encode_utf8(expected@) =~= sb(hash));
        } else {
            assert("blake3:"@ =~= seq!['b', 'l', 'a', 'k', 'e', '3', ':']);
            assert(encode_utf8(expected@) =~= prefix_bytes() + sb(hash));
        }
        assert(encode_utf8(expected@) == normalised(sb(hash)));
    }
    if !str_eq(actual.as_str(), expected.as_str()) {
        proof {
            if encode_utf8(actual@) == encode_utf8(expected@) {
                crate::text::lemma_bytes_determine_chars(actual@, expected@);
            }
        }
        return Err(LedgerError::CorruptObject(own(hash)));
    }
    Ok(own(content))
}

/// The name of a note's ledger file: the hex BLAKE3 of its vault path, then `.jsonl`.
pub fn ledger_file_name(path: &str) -> (r: String)
    ensures
        r@ == blake3_hex(sb(path)) + ".jsonl"@,
{
    let mut out = blake3_hex_of(path.as_bytes());
    push_chars(&mut out, ".jsonl");
    out
}

/// Constraint four as a fact about operations: a proposal, a rejection and
/// an egress never change the note's file; every other operation does.
pub proof fn law_proposals_rejections_and_egress_leave_the_file_alone()
    ensures
        !crate::entry::op_touches_file(Op::Propose),
        !crate::entry::op_touches_file(Op::Reject),
        !crate::entry::op_touches_file(Op::Egress),
        crate::entry::op_touches_file(Op::Create),
        crate::entry::op_touches_file(Op::Edit),
        crate::entry::op_touches_file(Op::Rename),
        crate::entry::op_touches_file(Op::Delete),
        crate::entry::op_touches_file(Op::Accept),
{
}

/// Any note restores to any prior state: restoring to an entry that
/// recorded content goes back to exactly that content's hash, and restoring
/// to a rejection goes back to the state before the refused proposal.
pub proof fn law_restore_goes_back_to_the_recorded_state(es: Seq<Entry>, i: int)
    requires
        0 <= i < es.len(),
    ensures
        es[i].op != Op::Reject && es[i].after is Some ==> restore_spec(es, i) == Ok::<
            String,
            LedgerError,
        >(es[i].after->0),
        es[i].op == Op::Reject && last_after(es, i) is Some ==> restore_spec(es, i) == Ok::<
            String,
            LedgerError,
        >(last_after(es, i)->0),
{
}

/// What the object store writes it reads back: text stored under the hash
/// that `hash_of` gives it passes the read-time check of `verify_object`,
/// and the only text that check can hand back for those bytes is the text
/// that was stored.
pub proof fn law_a_stored_object_reads_back_as_written(c: Seq<char>)
    ensures
        valid_utf8(encode_utf8(c)),
        encode_utf8(tagged_hash(encode_utf8(c))) == normalised(encode_utf8(tagged_hash(encode_utf8(c)))),
        forall|back: Seq<char>| encode_utf8(back) == encode_utf8(c) ==> back == c,
{
    let data = encode_utf8(c);
    vstd::utf8::encode_utf8_valid_utf8(c);
    let p = crate::hash::blake3_prefix();
    crate::text::lemma_encode_concat(p, blake3_hex(data));
    vstd::utf8::is_ascii_chars_encode_utf8(p);
    assert(encode_utf8(p) =~= prefix_bytes());
    let t = encode_utf8(tagged_hash(data));
    assert(t.take(7) =~= prefix_bytes());
    assert forall|back: Seq<char>| encode_utf8(back) == encode_utf8(c) implies back == c by {
        crate::text::lemma_bytes_determine_chars(back, c);
    }
}

} // verus!
