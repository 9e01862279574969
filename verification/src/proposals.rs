//! Deciding on what agents propose.
//!
//! Which proposals are still open is worked out by walking a note's history,
//! never stored beside it: the ledger is the only record, and a second list of
//! pending work could disagree with it. An accept or a reject settles the
//! oldest outstanding proposal. Accepting writes the proposed text, attributed
//! to the agent that wrote it; rejecting writes nothing to the note.
use vstd::prelude::*;
use crate::api::{ApiError, ErrorCode};
use crate::entry::{dec_digits, decimal, Actor, Entry, Op};
use crate::text::{own, push_chars};
use crate::types::{count_lines_from, Proposal};
use crate::wikilink::opt_view;
use vstd::utf8::encode_utf8;

verus! {

/// The positions of the proposals still open after a history: a proposal
/// opens, and an accept or a reject settles the oldest one still open.
pub open spec fn open_indices(ops: Seq<Op>) -> Seq<int>
    decreases ops.len(),
{
    if ops.len() == 0 {
        seq![]
    } else {
        let prev = open_indices(ops.drop_last());
        match ops.last() {
            Op::Propose => prev.push(ops.len() - 1),
            Op::Accept | Op::Reject => if prev.len() > 0 {
                prev.drop_first()
            } else {
                prev
            },
            _ => prev,
        }
    }
}

pub open spec fn ops_of(entries: Seq<Entry>) -> Seq<Op> {
    entries.map_values(|e: Entry| e.op)
}

/// The lines a patch adds and removes.
pub open spec fn patch_counts(patch: Option<String>) -> (usize, usize) {
    match patch {
        Some(p) => (
            count_lines_from(encode_utf8(p@), 0, 43u8) as usize,
            count_lines_from(encode_utf8(p@), 0, 45u8) as usize,
        ),
        None => (0usize, 0usize),
    }
}

/// How a proposal entry at `index` is shown to the person deciding on it.
pub open spec fn proposal_for(p: Proposal, index: int, e: Entry) -> bool {
    &&& p.index == index
    &&& p.ts@ == e.ts@
    &&& p.actor_id@ == e.actor.id@
    &&& opt_view(p.model) == opt_view(e.actor.model)
    &&& p.reason@ == e.reason@
    &&& p.patch@ == match e.patch {
        Some(t) => t@,
        None => seq![],
    }
    &&& (p.added, p.removed) == patch_counts(e.patch)
}

/// A proposal entry as the person deciding on it sees it.
pub fn to_proposal(index: usize, e: &Entry) -> (p: Proposal)
    ensures
        proposal_for(p, index as int, *e),
{
    let (added, removed) = match &e.patch {
        Some(t) => crate::types::diff_counts(Some(t.as_str())),
        None => crate::types::diff_counts(None),
    };
    Proposal {
        index,
        ts: own(e.ts.as_str()),
        actor_id: own(e.actor.id.as_str()),
        model: match &e.actor.model {
            Some(m) => Some(own(m.as_str())),
            None => None,
        },
        reason: own(e.reason.as_str()),
        patch: match &e.patch {
            Some(t) => own(t.as_str()),
            None => String::new(),
        },
        added,
        removed,
    }
}

/// The proposals on a note that no accept or reject has settled yet, oldest
/// first.
pub fn open_proposals(entries: &Vec<Entry>) -> (r: Vec<Proposal>)
    ensures
        r@.len() == open_indices(ops_of(entries@)).len(),
        forall|k: int|
            0 <= k < r@.len() ==> proposal_for(
                #[trigger] r@[k],
                open_indices(ops_of(entries@))[k],
                entries@[open_indices(ops_of(entries@))[k]],
            ),
{
    let ghost ops = ops_of(entries@);
    let mut open: Vec<Proposal> = Vec::new();
    let mut i: usize = 0;
    proof {
        lemma_open_indices_shape(ops.take(0));
    }
    while i < entries.len()
        invariant
            0 <= i <= entries@.len(),
            ops == ops_of(entries@),
            open@.len() == open_indices(ops.take(i as int)).len(),
            forall|k: int|
                0 <= k < open@.len() ==> proposal_for(
                    #[trigger] open@[k],
                    open_indices(ops.take(i as int))[k],
                    entries@[open_indices(ops.take(i as int))[k]],
                ),
        decreases entries@.len() - i,
    {
        let ghost prev = open_indices(ops.take(i as int));
        proof {
            assert(ops.take(i + 1).drop_last() =~= ops.take(i as int));
            assert(ops.take(i + 1).last() == entries@[i as int].op);
        }
        let ghost before = open@;
        match entries[i].op {
            Op::Propose => {
                open.push(to_proposal(i, &entries[i]));
                assert forall|k: int| 0 <= k < open@.len() implies proposal_for(
                    #[trigger] open@[k],
                    open_indices(ops.take(i + 1))[k],
                    entries@[open_indices(ops.take(i + 1))[k]],
                ) by {
                    if k < before.len() {
                        assert(open@[k] == before[k]);
                    }
                }
            },
            Op::Accept | Op::Reject => {
                if open.len() > 0 {
                    open.remove(0);
                    assert forall|k: int| 0 <= k < open@.len() implies proposal_for(
                        #[trigger] open@[k],
                        open_indices(ops.take(i + 1))[k],
                        entries@[open_indices(ops.take(i + 1))[k]],
                    ) by {
                        assert(open@[k] == before[k + 1]);
                    }
                }
            },
            _ => {},
        }
        i = i + 1;
    }
    assert(ops.take(entries@.len() as int) =~= ops);
    open
}

proof fn lemma_open_indices_shape(ops: Seq<Op>)
    ensures
        forall|k: int|
            0 <= k < open_indices(ops).len() ==> 0 <= #[trigger] open_indices(ops)[k] < ops.len()
                && ops[open_indices(ops)[k]] == Op::Propose,
        forall|k: int, l: int|
            0 <= k < l < open_indices(ops).len() ==> #[trigger] open_indices(ops)[k]
                < #[trigger] open_indices(ops)[l],
    decreases ops.len(),
{
    if ops.len() > 0 {
        let init = ops.drop_last();
        lemma_open_indices_shape(init);
        let prev = open_indices(init);
        let cur = open_indices(ops);
        assert forall|k: int| 0 <= k < cur.len() implies 0 <= #[trigger] cur[k] < ops.len()
            && ops[cur[k]] == Op::Propose by {
            match ops.last() {
                Op::Propose => {
                    if k < prev.len() {
                        assert(cur[k] == prev[k]);
                        assert(ops[prev[k]] == init[prev[k]]);
                    }
                },
                Op::Accept | Op::Reject => {
                    if prev.len() > 0 {
                        assert(cur[k] == prev[k + 1]);
                        assert(ops[prev[k + 1]] == init[prev[k + 1]]);
                    } else {
                        assert(ops[prev[k]] == init[prev[k]]);
                    }
                },
                _ => {
                    assert(ops[prev[k]] == init[prev[k]]);
                },
            }
        }
        assert forall|k: int, l: int| 0 <= k < l < cur.len() implies #[trigger] cur[k]
            < #[trigger] cur[l] by {
            match ops.last() {
                Op::Propose => {
                    if l == cur.len() - 1 {
                        assert(cur[k] == prev[k]);
                    } else {
                        assert(cur[k] == prev[k] && cur[l] == prev[l]);
                    }
                },
                Op::Accept | Op::Reject => {
                    if prev.len() > 0 {
                        assert(cur[k] == prev[k + 1] && cur[l] == prev[l + 1]);
                    }
                },
                _ => {},
            }
        }
    }
}

/// The open proposals are proposal entries of the history, oldest first, and
/// a decision settles the oldest of them: after an accept or a reject the
/// open list is the one before it without its first proposal (or unchanged
/// when none was open), after a proposal it gains that proposal at its end,
/// and any other operation leaves it alone.
pub proof fn law_a_decision_settles_the_oldest_open_proposal(ops: Seq<Op>, op: Op)
    ensures
        forall|k: int|
            0 <= k < open_indices(ops).len() ==> 0 <= #[trigger] open_indices(ops)[k] < ops.len()
                && ops[open_indices(ops)[k]] == Op::Propose,
        forall|k: int, l: int|
            0 <= k < l < open_indices(ops).len() ==> #[trigger] open_indices(ops)[k]
                < #[trigger] open_indices(ops)[l],
        open_indices(ops.push(op)) == match op {
            Op::Propose => open_indices(ops).push(ops.len() as int),
            Op::Accept | Op::Reject => if open_indices(ops).len() > 0 {
                open_indices(ops).drop_first()
            } else {
                open_indices(ops)
            },
            _ => open_indices(ops),
        },
{
    lemma_open_indices_shape(ops);
    assert(ops.push(op).drop_last() =~= ops);
}

/// The proposal at `index`, for an accept or a reject: there must be an
/// entry there, and it must be a proposal.
pub fn proposal_at(entries: &Vec<Entry>, index: usize) -> (r: Result<&Entry, ApiError>)
    ensures
        match r {
            Ok(e) => index < entries@.len() && *e == entries@[index as int] && e.op == Op::Propose,
            Err(err) => !(index < entries@.len() && entries@[index as int].op == Op::Propose)
                && err.code == ErrorCode::NoteNotFound && err.message@ == "no proposal at "@
                + dec_digits(index as nat),
        },
{
    if index < entries.len() {
        match entries[index].op {
            Op::Propose => return Ok(&entries[index]),
            _ => {},
        }
    }
    let mut m = own("no proposal at ");
    let d = decimal(index as u64);
    push_chars(&mut m, d.as_str());
    Err(ApiError { code: ErrorCode::NoteNotFound, message: m })
}

/// The entry at `index`, for showing its diff.
pub fn entry_at(entries: &Vec<Entry>, index: usize) -> (r: Result<&Entry, ApiError>)
    ensures
        match r {
            Ok(e) => index < entries@.len() && *e == entries@[index as int],
            Err(err) => index >= entries@.len() && err.code == ErrorCode::NoteNotFound
                && err.message@ == "no entry "@ + dec_digits(index as nat),
        },
{
    if index < entries.len() {
        return Ok(&entries[index]);
    }
    let mut m = own("no entry ");
    let d = decimal(index as u64);
    push_chars(&mut m, d.as_str());
    Err(ApiError { code: ErrorCode::NoteNotFound, message: m })
}

/// Why an accepted proposal changed the note: who accepted it, and which
/// proposal it was. The entry itself is attributed to the agent.
pub fn accept_reason(accepted_by: &str, index: usize, reason: &str) -> (r: String)
    ensures
        r@ == "accepted by "@ + accepted_by@ + " \u{2014} proposal "@ + dec_digits(index as nat)
            + ": "@ + reason@,
{
    let mut m = own("accepted by ");
    push_chars(&mut m, accepted_by);
    push_chars(&mut m, " \u{2014} proposal ");
    let d = decimal(index as u64);
    push_chars(&mut m, d.as_str());
    push_chars(&mut m, ": ");
    push_chars(&mut m, reason);
    m
}

/// Why a proposal was set aside.
pub fn reject_reason(index: usize, reason: &str) -> (r: String)
    ensures
        r@ == "rejected proposal "@ + dec_digits(index as nat) + ": "@ + reason@,
{
    let mut m = own("rejected proposal ");
    let d = decimal(index as u64);
    push_chars(&mut m, d.as_str());
    push_chars(&mut m, ": ");
    push_chars(&mut m, reason);
    m
}

/// Why a restore changed the note.
pub fn restore_reason(index: usize) -> (r: String)
    ensures
        r@ == "restored to entry "@ + dec_digits(index as nat),
{
    let mut m = own("restored to entry ");
    let d = decimal(index as u64);
    push_chars(&mut m, d.as_str());
    m
}

/// The person making a change, with the surface that made it as the session.
pub fn human_actor(id: &str, origin: Option<&str>) -> (a: Actor)
    ensures
        a.kind == crate::entry::ActorKind::Human,
        a.id@ == id@,
        a.model is None,
        match origin {
            Some(o) => a.session matches Some(s) && s@ == o@,
            None => a.session is None,
        },
{
    let mut a = Actor::human(id);
    a.session = match origin {
        Some(o) => Some(own(o)),
        None => None,
    };
    a
}

} // verus!
