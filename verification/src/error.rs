//! The core's error taxonomy, and the one rendering of it that may leave the machine.
//!
//! [`Error::public`] never names an absolute host path: a browser client on
//! another machine receives these errors, and the detailed form stays in the
//! local log.
use vstd::prelude::*;
use crate::text::{push_chars, own};

verus! {

/// Why a string is not a vault path.
#[derive(Debug, Clone, Copy, PartialEq, Eq, Structural)]
pub enum PathProblem {
    Empty,
    Nul,
    Colon,
    Absolute,
    ParentReference,
    WhitespaceComponent,
    TrailingSpaceOrDot,
    ReservedName,
    Root,
}

pub open spec fn problem_text(p: PathProblem) -> Seq<char> {
    match p {
        PathProblem::Empty => "path is empty"@,
        PathProblem::Nul => "path contains a NUL byte"@,
        PathProblem::Colon => "path contains a colon"@,
        PathProblem::Absolute => "path is absolute"@,
        PathProblem::ParentReference => "path contains a parent reference"@,
        PathProblem::WhitespaceComponent => "path has a whitespace-only component"@,
        PathProblem::TrailingSpaceOrDot => "component ends with a space or a dot"@,
        PathProblem::ReservedName => "component is a reserved device name"@,
        PathProblem::Root => "path resolves to the vault root"@,
    }
}

impl PathProblem {
    /// The reason, as words.
    pub fn as_str(self) -> (r: &'static str)
        ensures
            r@ == problem_text(self),
    {
        match self {
            PathProblem::Empty => "path is empty",
            PathProblem::Nul => "path contains a NUL byte",
            PathProblem::Colon => "path contains a colon",
            PathProblem::Absolute => "path is absolute",
            PathProblem::ParentReference => "path contains a parent reference",
            PathProblem::WhitespaceComponent => "path has a whitespace-only component",
            PathProblem::TrailingSpaceOrDot => "component ends with a space or a dot",
            PathProblem::ReservedName => "component is a reserved device name",
            PathProblem::Root => "path resolves to the vault root",
        }
    }
}

/// A core error. Host paths are carried as text so the detailed form can name them.
#[derive(Debug, Clone, PartialEq, Eq)]
pub enum Error {
    VaultRootMissing(String),
    VaultRootNotDirectory(String),
    PathEscapesVault(String),
    InvalidVaultPath { input: String, reason: PathProblem },
    NoteNotFound(String),
    AlreadyExists(String),
    NotUtf8 { path: String },
    Config { path: String, reason: String },
    /// `kind` is the I/O error kind in words, e.g. `permission denied`.
    Io { path: String, kind: String },
}

/// The message [`Error::public`] gives: never a host path, only vault-relative
/// names the caller already used.
pub open spec fn public_text(e: Error) -> Seq<char> {
    match e {
        Error::VaultRootMissing(_) => "vault root does not exist"@,
        Error::VaultRootNotDirectory(_) => "vault root is not a directory"@,
        Error::PathEscapesVault(_) => "path is outside the vault"@,
        Error::InvalidVaultPath { reason, .. } => "invalid path: "@ + problem_text(reason),
        Error::NoteNotFound(rel) => "no such note: "@ + rel@,
        Error::AlreadyExists(rel) => "already exists: "@ + rel@,
        Error::NotUtf8 { path } => path@ + " is not valid UTF-8"@,
        Error::Config { reason, .. } => "config error: "@ + reason@,
        Error::Io { kind, .. } => "io error: "@ + kind@,
    }
}

/// The detailed message, for the local log only: it may name host paths.
pub open spec fn detailed_text(e: Error) -> Seq<char> {
    match e {
        Error::VaultRootMissing(p) => "vault root does not exist: "@ + p@,
        Error::VaultRootNotDirectory(p) => "vault root is not a directory: "@ + p@,
        Error::PathEscapesVault(p) => "path escapes the vault: "@ + p@,
        Error::InvalidVaultPath { input, reason } => "path is not valid inside a vault ("@
            + problem_text(reason) + "): "@ + input@,
        Error::NoteNotFound(rel) => "no such note: "@ + rel@,
        Error::AlreadyExists(rel) => "already exists: "@ + rel@,
        Error::NotUtf8 { path } => path@ + " is not valid UTF-8; ARC-LABS vaults are UTF-8 only"@,
        Error::Config { path, reason } => "config error in "@ + path@ + ": "@ + reason@,
        Error::Io { path, kind } => "io error at "@ + path@ + ": "@ + kind@,
    }
}

impl Error {
    /// A message safe to hand to a caller that may be remote.
    pub fn public(&self) -> (r: String)
        ensures
            r@ == public_text(*self),
    {
        let mut out = String::new();
        match self {
            Error::VaultRootMissing(_) => push_chars(&mut out, "vault root does not exist"),
            Error::VaultRootNotDirectory(_) => push_chars(&mut out, "vault root is not a directory"),
            Error::PathEscapesVault(_) => push_chars(&mut out, "path is outside the vault"),
            Error::InvalidVaultPath { reason, .. } => {
                push_chars(&mut out, "invalid path: ");
                push_chars(&mut out, reason.as_str());
            },
            Error::NoteNotFound(rel) => {
                push_chars(&mut out, "no such note: ");
                push_chars(&mut out, rel.as_str());
            },
            Error::AlreadyExists(rel) => {
                push_chars(&mut out, "already exists: ");
                push_chars(&mut out, rel.as_str());
            },
            Error::NotUtf8 { path } => {
                push_chars(&mut out, path.as_str());
                push_chars(&mut out, " is not valid UTF-8");
            },
            Error::Config { reason, .. } => {
                push_chars(&mut out, "config error: ");
                push_chars(&mut out, reason.as_str());
            },
            Error::Io { kind, .. } => {
                push_chars(&mut out, "io error: ");
                push_chars(&mut out, kind.as_str());
            },
        }
        assert(out@ =~= public_text(*self));
        out
    }

    /// The detailed form, which may name host paths; for the local log.
    pub fn message(&self) -> (r: String)
        ensures
            r@ == detailed_text(*self),
    {
        let mut out = String::new();
        match self {
            Error::VaultRootMissing(p) => {
                push_chars(&mut out, "vault root does not exist: ");
                push_chars(&mut out, p.as_str());
            },
            Error::VaultRootNotDirectory(p) => {
                push_chars(&mut out, "vault root is not a directory: ");
                push_chars(&mut out, p.as_str());
            },
            Error::PathEscapesVault(p) => {
                push_chars(&mut out, "path escapes the vault: ");
                push_chars(&mut out, p.as_str());
            },
            Error::InvalidVaultPath { input, reason } => {
                push_chars(&mut out, "path is not valid inside a vault (");
                push_chars(&mut out, reason.as_str());
                push_chars(&mut out, "): ");
                push_chars(&mut out, input.as_str());
            },
            Error::NoteNotFound(rel) => {
                push_chars(&mut out, "no such note: ");
                push_chars(&mut out, rel.as_str());
            },
            Error::AlreadyExists(rel) => {
                push_chars(&mut out, "already exists: ");
                push_chars(&mut out, rel.as_str());
            },
            Error::NotUtf8 { path } => {
                push_chars(&mut out, path.as_str());
                push_chars(&mut out, " is not valid UTF-8; ARC-LABS vaults are UTF-8 only");
            },
            Error::Config { path, reason } => {
                push_chars(&mut out, "config error in ");
                push_chars(&mut out, path.as_str());
                push_chars(&mut out, ": ");
                push_chars(&mut out, reason.as_str());
            },
            Error::Io { path, kind } => {
                push_chars(&mut out, "io error at ");
                push_chars(&mut out, path.as_str());
                push_chars(&mut out, ": ");
                push_chars(&mut out, kind.as_str());
            },
        }
        assert(out@ =~= detailed_text(*self));
        out
    }

    /// An I/O error at a path, with the error's kind in words.
    pub fn io(path: &str, kind: &str) -> (r: Error)
        ensures
            r matches Error::Io { path: p, kind: k } && p@ == path@ && k@ == kind@,
    {
        Error::Io { path: own(path), kind: own(kind) }
    }

    /// An invalid-path error naming the input.
    pub fn invalid(input: &str, reason: PathProblem) -> (r: Error)
        ensures
            r matches Error::InvalidVaultPath { input: i, reason: why } && i@ == input@ && why
                == reason,
    {
        Error::InvalidVaultPath { input: own(input), reason }
    }
}

} // verus!
