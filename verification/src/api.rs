//! Errors shaped for crossing a transport, and what a deployment may do.
//!
//! Every error that leaves the API carries a stable machine-readable code and a
//! message already run through [`Error::public`], so no host path reaches a
//! caller that might be a browser on another machine.
use vstd::prelude::*;
use crate::error::{public_text, Error};
use crate::canvas::{canvas_error_text, CanvasError};
use crate::index::IndexError;
use crate::ledger::{ledger_public_text, LedgerError};
use crate::text::{own, push_chars, push_str};

verus! {

/// The stable identifier a client switches on.
#[derive(Debug, Clone, Copy, PartialEq, Eq, Structural)]
pub enum ErrorCode {
    /// No vault is open.
    NoVault,
    VaultNotFound,
    NotADirectory,
    NoteNotFound,
    /// A create or rename would overwrite something.
    AlreadyExists,
    /// A save started from a version that is no longer the one on disk.
    Conflict,
    InvalidPath,
    NotUtf8,
    Config,
    /// The operation exists but is switched off in this deployment.
    NotPermitted,
    Io,
}

/// The code each core error is reported under.
pub open spec fn code_of(e: Error) -> ErrorCode {
    match e {
        Error::VaultRootMissing(_) => ErrorCode::VaultNotFound,
        Error::VaultRootNotDirectory(_) => ErrorCode::NotADirectory,
        Error::NoteNotFound(_) => ErrorCode::NoteNotFound,
        Error::AlreadyExists(_) => ErrorCode::AlreadyExists,
        Error::PathEscapesVault(_) => ErrorCode::InvalidPath,
        Error::InvalidVaultPath { .. } => ErrorCode::InvalidPath,
        Error::NotUtf8 { .. } => ErrorCode::NotUtf8,
        Error::Config { .. } => ErrorCode::Config,
        Error::Io { .. } => ErrorCode::Io,
    }
}

/// The wire name of a code, as the client sees it.
pub open spec fn code_name(c: ErrorCode) -> Seq<char> {
    match c {
        ErrorCode::NoVault => "no_vault"@,
        ErrorCode::VaultNotFound => "vault_not_found"@,
        ErrorCode::NotADirectory => "not_a_directory"@,
        ErrorCode::NoteNotFound => "note_not_found"@,
        ErrorCode::AlreadyExists => "already_exists"@,
        ErrorCode::Conflict => "conflict"@,
        ErrorCode::InvalidPath => "invalid_path"@,
        ErrorCode::NotUtf8 => "not_utf8"@,
        ErrorCode::Config => "config"@,
        ErrorCode::NotPermitted => "not_permitted"@,
        ErrorCode::Io => "io"@,
    }
}

impl ErrorCode {
    /// The code's wire name, in snake case.
    pub fn as_str(self) -> (r: &'static str)
        ensures
            r@ == code_name(self),
    {
        match self {
            ErrorCode::NoVault => "no_vault",
            ErrorCode::VaultNotFound => "vault_not_found",
            ErrorCode::NotADirectory => "not_a_directory",
            ErrorCode::NoteNotFound => "note_not_found",
            ErrorCode::AlreadyExists => "already_exists",
            ErrorCode::Conflict => "conflict",
            ErrorCode::InvalidPath => "invalid_path",
            ErrorCode::NotUtf8 => "not_utf8",
            ErrorCode::Config => "config",
            ErrorCode::NotPermitted => "not_permitted",
            ErrorCode::Io => "io",
        }
    }
}

/// An error as a caller receives it: a code and a message safe to show.
#[derive(Debug, Clone, PartialEq, Eq)]
pub struct ApiError {
    pub code: ErrorCode,
    pub message: String,
}

impl ApiError {
    pub fn new(code: ErrorCode, message: &str) -> (r: ApiError)
        ensures
            r.code == code,
            r.message@ == message@,
    {
        ApiError { code, message: own(message) }
    }

    pub fn no_vault() -> (r: ApiError)
        ensures
            r.code == ErrorCode::NoVault,
            r.message@ == "no vault is open"@,
    {
        ApiError::new(ErrorCode::NoVault, "no vault is open")
    }

    pub fn not_permitted(what: &str) -> (r: ApiError)
        ensures
            r.code == ErrorCode::NotPermitted,
            r.message@ == what@ + " is not available in this mode"@,
    {
        let mut m = own(what);
        push_chars(&mut m, " is not available in this mode");
        ApiError { code: ErrorCode::NotPermitted, message: m }
    }

    /// A save refused because the note changed underneath the editor.
    pub fn conflict() -> (r: ApiError)
        ensures
            r.code == ErrorCode::Conflict,
            r.message@ == "this note changed on disk since it was opened"@,
    {
        ApiError::new(ErrorCode::Conflict, "this note changed on disk since it was opened")
    }

    /// What `Display` shows: the message alone.
    pub fn to_text(&self) -> (r: String)
        ensures
            r@ == self.message@,
    {
        self.message.clone()
    }
}

/// The code a core error is reported under.
pub fn code_for(e: &Error) -> (r: ErrorCode)
    ensures
        r == code_of(*e),
{
    match e {
        Error::VaultRootMissing(_) => ErrorCode::VaultNotFound,
        Error::VaultRootNotDirectory(_) => ErrorCode::NotADirectory,
        Error::NoteNotFound(_) => ErrorCode::NoteNotFound,
        Error::AlreadyExists(_) => ErrorCode::AlreadyExists,
        Error::PathEscapesVault(_) => ErrorCode::InvalidPath,
        Error::InvalidVaultPath { .. } => ErrorCode::InvalidPath,
        Error::NotUtf8 { .. } => ErrorCode::NotUtf8,
        Error::Config { .. } => ErrorCode::Config,
        Error::Io { .. } => ErrorCode::Io,
    }
}

impl From<Error> for ApiError {
    /// The public form only: the detailed message, which may name host
    /// paths, never crosses the boundary.
    fn from(e: Error) -> (r: ApiError)
        ensures
            r.code == code_of(e),
            r.message@ == public_text(e),
    {
        ApiError { code: code_for(&e), message: e.public() }
    }
}

impl vstd::std_specs::convert::FromSpecImpl<Error> for ApiError {
    /// The conversion's meaning is stated on `from` itself.
    open spec fn obeys_from_spec() -> bool {
        false
    }

    open spec fn from_spec(e: Error) -> ApiError {
        ApiError { code: code_of(e), message: arbitrary() }
    }
}

/// Which shell the UI is talking to.
#[derive(Debug, Clone, Copy, PartialEq, Eq, Structural)]
pub enum Shell {
    Desktop,
    Server,
}

/// What this deployment is allowed to do beyond reading an open vault.
#[derive(Debug, Clone, Copy, PartialEq, Eq, Structural)]
pub struct Capabilities {
    pub shell: Shell,
    pub browse_filesystem: bool,
    pub native_folder_picker: bool,
    /// Whether absolute paths may be shown to the caller.
    pub expose_paths: bool,
}

impl Capabilities {
    /// Desktop: the user is at the machine, so everything is theirs to see.
    pub fn desktop() -> (r: Capabilities)
        ensures
            r == (Capabilities {
                shell: Shell::Desktop,
                browse_filesystem: true,
                native_folder_picker: true,
                expose_paths: true,
            }),
    {
        Capabilities {
            shell: Shell::Desktop,
            browse_filesystem: true,
            native_folder_picker: true,
            expose_paths: true,
        }
    }

    /// A server on loopback: same machine, same person, but no native dialogs.
    pub fn local_server() -> (r: Capabilities)
        ensures
            r == (Capabilities {
                shell: Shell::Server,
                browse_filesystem: true,
                native_folder_picker: false,
                expose_paths: true,
            }),
    {
        Capabilities {
            shell: Shell::Server,
            browse_filesystem: true,
            native_folder_picker: false,
            expose_paths: true,
        }
    }

    /// A server reachable from elsewhere: the filesystem stays invisible.
    pub fn remote_server() -> (r: Capabilities)
        ensures
            r == (Capabilities {
                shell: Shell::Server,
                browse_filesystem: false,
                native_folder_picker: false,
                expose_paths: false,
            }),
    {
        Capabilities {
            shell: Shell::Server,
            browse_filesystem: false,
            native_folder_picker: false,
            expose_paths: false,
        }
    }
}

/// The features a client is told this process offers, in order: index-backed
/// ones only once the index exists, browsing and the folder picker only where
/// the deployment grants them.
pub open spec fn capability_names(index_open: bool, caps: Capabilities) -> Seq<Seq<char>> {
    let base = seq!["notes"@, "ledger"@, "canvas"@];
    let indexed = if index_open {
        base + seq!["index"@, "weave"@]
    } else {
        base
    };
    let always = indexed + seq!["runtime"@, "mcp"@, "events"@];
    let browse = if caps.browse_filesystem {
        always.push("browse"@)
    } else {
        always
    };
    if caps.native_folder_picker {
        browse.push("folder-picker"@)
    } else {
        browse
    }
}

pub open spec fn string_views(v: Seq<String>) -> Seq<Seq<char>> {
    v.map_values(|s: String| s@)
}

/// The capability list of the handshake.
pub fn capability_list(index_open: bool, caps: Capabilities) -> (r: Vec<String>)
    ensures
        string_views(r@) == capability_names(index_open, caps),
{
    let mut v: Vec<String> = Vec::new();
    v.push(own("notes"));
    v.push(own("ledger"));
    v.push(own("canvas"));
    if index_open {
        v.push(own("index"));
        v.push(own("weave"));
    }
    v.push(own("runtime"));
    v.push(own("mcp"));
    v.push(own("events"));
    if caps.browse_filesystem {
        v.push(own("browse"));
    }
    if caps.native_folder_picker {
        v.push(own("folder-picker"));
    }
    assert(string_views(v@) =~= capability_names(index_open, caps));
    v
}

/// The `n`-th name tried for a new note near `desired`: `base.md`, then
/// `base 2.md`, `base 3.md` and so on, where `base` is `desired` without a
/// trailing `.md`. A name collision becomes another name rather than an error.
pub open spec fn candidate_name(desired: Seq<char>, n: u32) -> Seq<char> {
    let base = if crate::templates::ends_md(desired) {
        desired.take(desired.len() - 3)
    } else {
        desired
    };
    if n <= 1 {
        base + ".md"@
    } else {
        base + " "@ + crate::entry::dec_digits(n as nat) + ".md"@
    }
}

pub fn note_candidate(desired: &str, n: u32) -> (r: String)
    ensures
        r@ == candidate_name(desired@, n),
{
    let cs = crate::text::chars_of(desired);
    let len = cs.len();
    let base: Vec<char> = if len >= 3 && cs[len - 3] == '.' && cs[len - 2] == 'm' && cs[len - 1]
        == 'd' {
        assert(cs@.skip(len - 3) =~= crate::templates::md_suffix());
        crate::chars::slice_of(cs.as_slice(), 0, len - 3)
    } else {
        proof {
            if len >= 3 && cs@.skip(len - 3) == crate::templates::md_suffix() {
                assert(cs@.skip(len - 3)[0] == cs@[len - 3]);
                assert(cs@.skip(len - 3)[1] == cs@[len - 2]);
                assert(cs@.skip(len - 3)[2] == cs@[len - 1]);
            }
        }
        cs
    };
    assert(base@ =~= (if crate::templates::ends_md(desired@) {
        desired@.take(desired@.len() - 3)
    } else {
        desired@
    }));
    let mut out = crate::text::string_of(base.as_slice());
    if n > 1 {
        push_str(&mut out, " ");
        let d = crate::entry::decimal(n as u64);
        push_str(&mut out, d.as_str());
    }
    push_str(&mut out, ".md");
    out
}

/// An error's public form never names a host path: for every error that
/// carries one, the public message is the same whatever the path is.
pub proof fn law_public_text_never_names_a_host_path(a: String, b: String, reason: String, kind: String)
    ensures
        public_text(Error::VaultRootMissing(a)) == public_text(Error::VaultRootMissing(b)),
        public_text(Error::VaultRootNotDirectory(a)) == public_text(Error::VaultRootNotDirectory(b)),
        public_text(Error::PathEscapesVault(a)) == public_text(Error::PathEscapesVault(b)),
        public_text(Error::Config { path: a, reason }) == public_text(
            Error::Config { path: b, reason },
        ),
        public_text(Error::Io { path: a, kind }) == public_text(Error::Io { path: b, kind }),
{
}

/// A ledger failure as a caller sees it: an I/O error, in the ledger's public
/// words, which never name a host path.
pub fn ledger_error(e: &LedgerError) -> (r: ApiError)
    ensures
        r.code == ErrorCode::Io,
        r.message@ == ledger_public_text(*e),
{
    ApiError { code: ErrorCode::Io, message: e.public() }
}

/// An index failure as a caller sees it. The full form can name the database
/// path, so only a fixed sentence crosses: a schema from another build is a
/// configuration matter, anything else could not be read.
pub fn index_error(e: &IndexError) -> (r: ApiError)
    ensures
        match e {
            IndexError::SchemaMismatch { .. } => r.code == ErrorCode::Config && r.message@
                == "the index was built by a different version"@,
            _ => r.code == ErrorCode::Io && r.message@ == "the index could not be read"@,
        },
{
    match e {
        IndexError::SchemaMismatch { .. } => ApiError::new(
            ErrorCode::Config,
            "the index was built by a different version",
        ),
        _ => ApiError::new(ErrorCode::Io, "the index could not be read"),
    }
}

/// Whether a save may go ahead: the editor's base hash, when it sent one,
/// must be the hash of what is on disk now. Otherwise someone else wrote the
/// file, and saving would silently discard their work.
pub fn check_base(current_hash: &str, base: Option<&str>) -> (r: Result<(), ApiError>)
    ensures
        match r {
            Ok(()) => base matches Some(b) ==> b@ == current_hash@,
            Err(e) => (base matches Some(b) && b@ != current_hash@) && e.code == ErrorCode::Conflict
                && e.message@ == "this note changed on disk since it was opened"@,
        },
{
    match base {
        Some(b) => if crate::text::str_eq(b, current_hash) {
            Ok(())
        } else {
            Err(ApiError::conflict())
        },
        None => Ok(()),
    }
}

/// A canvas that cannot be read is the user's file, not an internal fault,
/// so the message says what is wrong with it.
pub fn canvas_error(e: &CanvasError) -> (r: ApiError)
    ensures
        r.code == ErrorCode::NotUtf8,
        r.message@ == "this canvas could not be read: "@ + canvas_error_text(*e),
{
    let mut m = own("this canvas could not be read: ");
    let t = e.message();
    push_str(&mut m, t.as_str());
    ApiError { code: ErrorCode::NotUtf8, message: m }
}

} // verus!
