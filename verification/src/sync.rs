//! Sync, as decisions: whether this machine can sync and why not, which hub
//! it talks to, when it is scheduled to, what settling a conflict writes to
//! the ledger, and whether a hub takes a write planned against an older state
//! of its vault. Moving the files is the sync engine's.
use vstd::prelude::*;
use crate::api::{ApiError, ErrorCode};
use crate::chars::trimmed;
use crate::entry::{Entry, Op};
use crate::ledger::{change_entry, string_opt};
use crate::proposals::human_actor;
use crate::text::{chars_of, own, push_chars, str_eq, string_of, trim};

verus! {

/// What this instance is to sync.
#[derive(Debug, Clone, Copy, PartialEq, Eq, Structural)]
pub enum Role {
    /// A vault on disk only.
    Standalone,
    /// Syncs with a hub.
    Client,
    /// Other machines sync to it.
    Hub,
}

/// How often a client syncs on its own.
#[derive(Debug, Clone, Copy, PartialEq, Eq, Structural)]
pub enum Cadence {
    Manual,
    Daily,
    Weekly,
    Monthly,
}

pub open spec fn role_text(r: Role) -> Seq<char> {
    match r {
        Role::Standalone => "standalone"@,
        Role::Client => "client"@,
        Role::Hub => "hub"@,
    }
}

pub open spec fn cadence_text(c: Cadence) -> Seq<char> {
    match c {
        Cadence::Manual => "manual"@,
        Cadence::Daily => "daily"@,
        Cadence::Weekly => "weekly"@,
        Cadence::Monthly => "monthly"@,
    }
}

impl Role {
    pub fn name(self) -> (r: &'static str)
        ensures
            r@ == role_text(self),
    {
        match self {
            Role::Standalone => "standalone",
            Role::Client => "client",
            Role::Hub => "hub",
        }
    }
}

impl Cadence {
    pub fn name(self) -> (r: &'static str)
        ensures
            r@ == cadence_text(self),
    {
        match self {
            Cadence::Manual => "manual",
            Cadence::Daily => "daily",
            Cadence::Weekly => "weekly",
            Cadence::Monthly => "monthly",
        }
    }
}

/// What a missing token is answered: the variable to set, never a value.
pub open spec fn no_token_text(token_env: Seq<char>) -> Seq<char> {
    "no token: set "@ + token_env + " in the environment this app starts in"@
}

/// Why this machine cannot sync, plain enough to act on; none when it can.
pub open spec fn blocked_text(role: Role, hub: Seq<char>, has_token: bool, token_env: Seq<char>) -> Option<
    Seq<char>,
> {
    match role {
        Role::Hub => Some("this instance is a hub; other machines sync to it"@),
        Role::Standalone => Some("this vault is on disk only. Connect it to a vault server to sync."@),
        Role::Client => if trim(hub).len() == 0 {
            Some("no vault server is set"@)
        } else if !has_token {
            Some(no_token_text(token_env))
        } else {
            None
        },
    }
}

fn is_blank(s: &str) -> (r: bool)
    ensures
        r == (trim(s@).len() == 0),
{
    let cs = chars_of(s);
    trimmed(cs.as_slice()).len() == 0
}

/// Why this machine cannot sync, or none when it can.
pub fn sync_blocked(role: Role, hub: &str, has_token: bool, token_env: &str) -> (r: Option<String>)
    ensures
        string_opt(r) == blocked_text(role, hub@, has_token, token_env@),
{
    match role {
        Role::Hub => Some(own("this instance is a hub; other machines sync to it")),
        Role::Standalone => Some(own("this vault is on disk only. Connect it to a vault server to sync.")),
        Role::Client => {
            if is_blank(hub) {
                Some(own("no vault server is set"))
            } else if !has_token {
                let mut m = own("no token: set ");
                push_chars(&mut m, token_env);
                push_chars(&mut m, " in the environment this app starts in");
                Some(m)
            } else {
                None
            }
        },
    }
}

/// Where a client stands with its hub. Never holds the token itself.
#[derive(Debug, Clone, PartialEq, Eq)]
pub struct SyncStatus {
    /// `standalone`, `client` or `hub`.
    pub role: String,
    pub hub: String,
    /// Whether a token is available, without saying what it is.
    pub has_token: bool,
    /// `manual`, `daily`, `weekly` or `monthly`.
    pub cadence: String,
    pub hour: u32,
    pub minute: u32,
    pub last_sync_at: Option<String>,
    /// Whether this instance is set up well enough to sync at all.
    pub ready: bool,
    /// Why not, when it is not.
    pub blocked: Option<String>,
}

/// Where this machine stands, from its sync settings and whether a token is
/// set in its environment.
pub fn sync_status(
    role: Role,
    cadence: Cadence,
    hub: &str,
    has_token: bool,
    token_env: &str,
    hour: u32,
    minute: u32,
    last_sync_at: Option<String>,
) -> (r: SyncStatus)
    ensures
        r.role@ == role_text(role),
        r.hub@ == hub@,
        r.has_token == has_token,
        r.cadence@ == cadence_text(cadence),
        r.hour == hour,
        r.minute == minute,
        string_opt(r.last_sync_at) == string_opt(last_sync_at),
        string_opt(r.blocked) == blocked_text(role, hub@, has_token, token_env@),
        r.ready == (blocked_text(role, hub@, has_token, token_env@) is None),
{
    let blocked = sync_blocked(role, hub, has_token, token_env);
    let ready = blocked.is_none();
    SyncStatus {
        role: own(role.name()),
        hub: own(hub),
        has_token,
        cadence: own(cadence.name()),
        hour,
        minute,
        last_sync_at,
        ready,
        blocked,
    }
}

/// The hub a client talks to: its address, trimmed, and the token, or why
/// there is none to talk to.
pub fn hub_target(role: Role, hub: &str, token: Option<String>, token_env: &str) -> (r: Result<
    (String, String),
    ApiError,
>)
    ensures
        role != Role::Client ==> (r matches Err(e) && e.code == ErrorCode::NotPermitted && e.message@
            == "this vault is not connected to a vault server"@),
        role == Role::Client && trim(hub@).len() == 0 ==> (r matches Err(e) && e.code == ErrorCode::Config
            && e.message@ == "no vault server is set"@),
        role == Role::Client && trim(hub@).len() > 0 && token is None ==> (r matches Err(e) && e.code
            == ErrorCode::Config && e.message@ == no_token_text(token_env@)),
        role == Role::Client && trim(hub@).len() > 0 && token is Some ==> (r matches Ok((u, t)) && u@
            == trim(hub@) && t@ == token->0@),
{
    if role != Role::Client {
        return Err(ApiError::new(ErrorCode::NotPermitted, "this vault is not connected to a vault server"));
    }
    let cs = chars_of(hub);
    let url = trimmed(cs.as_slice());
    if url.len() == 0 {
        return Err(ApiError::new(ErrorCode::Config, "no vault server is set"));
    }
    match token {
        Some(t) => Ok((string_of(url.as_slice()), t)),
        None => {
            let mut m = own("no token: set ");
            push_chars(&mut m, token_env);
            push_chars(&mut m, " in the environment this app starts in");
            Err(ApiError::new(ErrorCode::Config, m.as_str()))
        },
    }
}

/// When a scheduled pass runs: the cadence, at this hour and minute of the
/// machine's local day.
#[derive(Debug, Clone, Copy, PartialEq, Eq, Structural)]
pub struct Schedule {
    pub cadence: Cadence,
    pub hour: u32,
    pub minute: u32,
    pub utc_offset_secs: i64,
}

/// This machine's schedule, or none when nothing is scheduled: a standalone
/// vault, a hub, and a client that syncs only when asked all leave the daemon
/// nothing to do. A clock time out of range is read as the last valid one.
pub fn schedule_of(role: Role, cadence: Cadence, hour: u32, minute: u32, utc_offset_minutes: i32) -> (r:
    Option<Schedule>)
    ensures
        r == (if role != Role::Client || cadence == Cadence::Manual {
            None
        } else {
            Some(
                Schedule {
                    cadence,
                    hour: if hour <= 23 {
                        hour
                    } else {
                        23
                    },
                    minute: if minute <= 59 {
                        minute
                    } else {
                        59
                    },
                    utc_offset_secs: (utc_offset_minutes * 60) as i64,
                },
            )
        }),
{
    if role != Role::Client {
        return None;
    }
    match cadence {
        Cadence::Manual => None,
        Cadence::Daily | Cadence::Weekly | Cadence::Monthly => {
            let offset: i64 = utc_offset_minutes as i64 * 60;
            Some(
                Schedule {
                    cadence,
                    hour: if hour <= 23 {
                        hour
                    } else {
                        23
                    },
                    minute: if minute <= 59 {
                        minute
                    } else {
                        59
                    },
                    utc_offset_secs: offset,
                },
            )
        },
    }
}

/// Why the first of a resolution's two entries was written.
pub open spec fn dropped_reason() -> Seq<char> {
    "the version this sync did not keep, recorded before it was replaced"@
}

/// Why the second was.
pub open spec fn resolved_reason(kept_local: bool) -> Seq<char> {
    "resolved a sync conflict, kept "@ + if kept_local {
        "mine"@
    } else {
        "theirs"@
    }
}

/// What settling a conflict writes to the ledger, by the person who chose:
/// first the version that loses, as content of its own so that restoring to
/// it gives it back, then the choice, from the loser to the winner. Nothing
/// when the two versions are the same.
pub fn resolution_entries(person: &str, origin: Option<&str>, loser: &str, winner: &str, kept_local: bool) -> (r:
    Vec<Entry>)
    ensures
        loser@ == winner@ ==> r@.len() == 0,
        loser@ != winner@ ==> {
            &&& r@.len() == 2
            &&& r@[0].op == Op::Edit && r@[1].op == Op::Edit
            &&& r@[0].actor.id@ == person@ && r@[1].actor.id@ == person@
            &&& r@[0].reason@ == dropped_reason()
            &&& r@[1].reason@ == resolved_reason(kept_local)
            &&& r@[0].before is None
            &&& r@[0].after matches Some(h) && h@ == crate::hash::tagged_hash(crate::text::sb(loser))
            &&& r@[1].before matches Some(h) && h@ == crate::hash::tagged_hash(crate::text::sb(loser))
            &&& r@[1].after matches Some(h) && h@ == crate::hash::tagged_hash(crate::text::sb(winner))
        },
{
    let mut out: Vec<Entry> = Vec::new();
    if str_eq(loser, winner) {
        return out;
    }
    let first = change_entry(
        human_actor(person, origin),
        Op::Edit,
        "the version this sync did not keep, recorded before it was replaced",
        None,
        Some(loser),
    );
    let mut reason = own("resolved a sync conflict, kept ");
    if kept_local {
        push_chars(&mut reason, "mine");
    } else {
        push_chars(&mut reason, "theirs");
    }
    let second = change_entry(human_actor(person, origin), Op::Edit, reason.as_str(), Some(loser), Some(winner));
    out.push(first);
    out.push(second);
    out
}

/// A hub's generation stamp: the session it started with, then how many
/// writes it has taken since.
pub open spec fn generation_text(session: Seq<char>, mutations: u64) -> Seq<char> {
    session + "-"@ + crate::entry::dec_digits(mutations as nat)
}

pub fn generation(session: &str, mutations: u64) -> (r: String)
    ensures
        r@ == generation_text(session@, mutations),
{
    let mut g = own(session);
    push_chars(&mut g, "-");
    let d = crate::entry::decimal(mutations);
    push_chars(&mut g, d.as_str());
    g
}

/// What a write planned against a vault that has since moved is answered.
pub open spec fn moved_text(quoted: Seq<char>, now: Seq<char>) -> Seq<char> {
    "the vault moved since this was planned (planned against "@ + quoted + ", now "@ + now
        + "); ask for the manifest again and re-plan"@
}

/// Whether a hub takes a write quoting `quoted` while it is at `now`: a
/// write that quotes nothing (blank counts as nothing) is taken, as is one
/// that quotes the current generation; one planned against any other is
/// refused as a conflict.
pub fn check_generation(quoted: Option<&str>, now: &str) -> (r: Result<(), ApiError>)
    ensures
        match quoted {
            None => r is Ok,
            Some(q) => if trim(q@).len() == 0 || trim(q@) == now@ {
                r is Ok
            } else {
                r matches Err(e) && e.code == ErrorCode::Conflict && e.message@ == moved_text(trim(q@), now@)
            },
        },
{
    let q = match quoted {
        None => {
            return Ok(());
        },
        Some(q) => q,
    };
    let cs = chars_of(q);
    let t = trimmed(cs.as_slice());
    if t.len() == 0 {
        return Ok(());
    }
    let ts = string_of(t.as_slice());
    if str_eq(ts.as_str(), now) {
        return Ok(());
    }
    let mut m = own("the vault moved since this was planned (planned against ");
    push_chars(&mut m, ts.as_str());
    push_chars(&mut m, ", now ");
    push_chars(&mut m, now);
    push_chars(&mut m, "); ask for the manifest again and re-plan");
    Err(ApiError::new(ErrorCode::Conflict, m.as_str()))
}

} // verus!
