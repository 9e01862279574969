//! The parts of configuration that carry no floating point: model access,
//! the trash window, where templates live, and who edits are attributed to.
//! Reading and writing `config.toml` belongs to the shell.
use vstd::prelude::*;
use crate::text::{own, trim, trim_owned};

verus! {

#[derive(Debug, Clone, Copy, PartialEq, Eq, Structural)]
pub enum Density {
    Compact,
    Comfortable,
}

/// Where vault bytes are allowed to go.
#[derive(Debug, Clone, Copy, PartialEq, Eq, Structural)]
pub enum ModelAccess {
    LocalOnly,
    TrustedEndpoint,
    AskEachRun,
}

#[derive(Debug, Clone, PartialEq, Eq)]
pub struct ModelConfig {
    pub endpoint: String,
    pub instruct: String,
    pub embed: String,
    pub access: ModelAccess,
}

impl Default for ModelConfig {
    /// A local Ollama, a model small enough to stay interactive without a
    /// GPU, and nothing leaving the machine.
    fn default() -> (r: ModelConfig)
        ensures
            r.endpoint@ == "http://localhost:11434"@,
            r.instruct@ == "qwen3.5:0.8b"@,
            r.embed@ == "nomic-embed-text"@,
            r.access == ModelAccess::LocalOnly,
    {
        ModelConfig {
            endpoint: own("http://localhost:11434"),
            instruct: own("qwen3.5:0.8b"),
            embed: own("nomic-embed-text"),
            access: ModelAccess::LocalOnly,
        }
    }
}

/// How long a deleted note's copy survives on disk; `0` keeps it for ever.
#[derive(Debug, Clone, Copy, PartialEq, Eq, Structural)]
pub struct TrashConfig {
    pub retention_days: u32,
}

impl Default for TrashConfig {
    /// A week: long enough to notice a mistake.
    fn default() -> (r: TrashConfig)
        ensures
            r.retention_days == 7,
    {
        TrashConfig { retention_days: 7 }
    }
}

/// The folder holding note templates by default: Obsidian's own convention.
pub fn default_templates_folder() -> (r: String)
    ensures
        r@ == "Templates"@,
{
    own("Templates")
}

/// The ledger actor: the configured id, else `ARC_LABS_ACTOR`, else `USER`,
/// else `USERNAME`; the first of those that is set, trimmed, or `unknown`
/// when that is empty or none is set.
pub open spec fn actor_text(
    configured: Option<Seq<char>>,
    actor_env: Option<Seq<char>>,
    user: Option<Seq<char>>,
    username: Option<Seq<char>>,
) -> Seq<char> {
    let first = if configured is Some {
        configured
    } else if actor_env is Some {
        actor_env
    } else if user is Some {
        user
    } else {
        username
    };
    match first {
        Some(s) => if trim(s).len() > 0 {
            trim(s)
        } else {
            "unknown"@
        },
        None => "unknown"@,
    }
}

pub open spec fn opt_str(o: Option<&str>) -> Option<Seq<char>> {
    match o {
        Some(s) => Some(s@),
        None => None,
    }
}

/// Picks the ledger actor id from the configured value and the environment.
pub fn resolved_actor_id(
    configured: Option<&str>,
    actor_env: Option<&str>,
    user: Option<&str>,
    username: Option<&str>,
) -> (r: String)
    ensures
        r@ == actor_text(opt_str(configured), opt_str(actor_env), opt_str(user), opt_str(username)),
{
    let first = if configured.is_some() {
        configured
    } else if actor_env.is_some() {
        actor_env
    } else if user.is_some() {
        user
    } else {
        username
    };
    match first {
        Some(s) => {
            let t = trim_owned(s);
            if t.as_str().is_empty() {
                own("unknown")
            } else {
                t
            }
        },
        None => own("unknown"),
    }
}

/// The ledger is never told an edit was made by nobody: the actor id is
/// never empty.
pub proof fn law_the_actor_is_never_blank(
    configured: Option<Seq<char>>,
    actor_env: Option<Seq<char>>,
    user: Option<Seq<char>>,
    username: Option<Seq<char>>,
)
    ensures
        actor_text(configured, actor_env, user, username).len() > 0,
{
    reveal_strlit("unknown");
}


/// Who the ledger names: a configured actor wins; without one, a deployment's
/// `ARC_LABS_ACTOR` wins over the OS user, whatever `USER` and `USERNAME`
/// hold; then `USER`, then `USERNAME`. The first value set is trimmed, and
/// one that is blank gives `unknown` rather than falling through.
pub proof fn law_the_actor_is_chosen_in_order(
    configured: Option<Seq<char>>,
    actor_env: Option<Seq<char>>,
    user: Option<Seq<char>>,
    username: Option<Seq<char>>,
    c: Seq<char>,
    a: Seq<char>,
    u: Seq<char>,
    n: Seq<char>,
    blank: Seq<char>,
)
    requires
        trim(c).len() > 0,
        trim(a).len() > 0,
        trim(u).len() > 0,
        trim(n).len() > 0,
    ensures
        actor_text(Some(c), actor_env, user, username) == trim(c),
        actor_text(None, Some(a), user, username) == trim(a),
        actor_text(None, None, Some(u), username) == trim(u),
        actor_text(None, None, None, Some(n)) == trim(n),
        actor_text(None, None, None, None) == "unknown"@,
        trim(blank).len() == 0 ==> {
            &&& actor_text(Some(blank), actor_env, user, username) == "unknown"@
            &&& actor_text(None, Some(blank), user, username) == "unknown"@
            &&& actor_text(None, None, Some(blank), username) == "unknown"@
            &&& actor_text(None, None, None, Some(blank)) == "unknown"@
        },
{
}

} // verus!
