//! The model backends' shared vocabulary, and the deterministic mock whose
//! output is a pure function of its input.
use vstd::prelude::*;
use crate::hash::blake3_hex;
use crate::text::{chars_of, own, push_str, string_of, trim, trim_owned};

verus! {

/// A chunk of generated text, or the end of a stream.
#[derive(Debug, Clone, PartialEq, Eq)]
pub enum Token {
    Text(String),
    Done { tokens: usize },
}

#[derive(Debug, Clone, PartialEq, Eq)]
pub enum SeamError {
    Unavailable(String),
    NoSuchModel(String),
    Cancelled,
}

pub open spec fn seam_error_text(e: SeamError) -> Seq<char> {
    match e {
        SeamError::Unavailable(m) => "model backend unavailable: "@ + m@,
        SeamError::NoSuchModel(m) => "model "@ + m@ + " is not installed"@,
        SeamError::Cancelled => "run was cancelled"@,
    }
}

impl SeamError {
    /// What `Display` shows.
    pub fn message(&self) -> (r: String)
        ensures
            r@ == seam_error_text(*self),
    {
        match self {
            SeamError::Unavailable(m) => {
                let mut s = own("model backend unavailable: ");
                push_str(&mut s, m.as_str());
                s
            },
            SeamError::NoSuchModel(m) => {
                let mut s = own("model ");
                push_str(&mut s, m.as_str());
                push_str(&mut s, " is not installed");
                s
            },
            SeamError::Cancelled => own("run was cancelled"),
        }
    }
}

/// A backend whose output is a pure function of its input.
#[derive(Debug, Clone, Copy, PartialEq, Eq, Structural)]
pub struct MockLlm {
    /// Chunks the response into this many tokens, so streaming and
    /// cancellation have something to happen between.
    pub chunk_size: usize,
}

impl Default for MockLlm {
    fn default() -> (r: MockLlm)
        ensures
            r.chunk_size == 8,
    {
        MockLlm { chunk_size: 8 }
    }
}

/// `[mock:<first 8 hex digits of the prompt's BLAKE3>] <trimmed prompt>`.
pub open spec fn mock_response(prompt: Seq<char>) -> Seq<char> {
    "[mock:"@ + blake3_hex(vstd::utf8::encode_utf8(prompt)).take(8) + "] "@ + trim(prompt)
}

impl MockLlm {
    /// The transform, exposed so tests can state the expected output.
    pub fn response_for(prompt: &str) -> (r: String)
        ensures
            r@ == mock_response(prompt@),
    {
        let hex = crate::hash::blake3_hex_of(prompt.as_bytes());
        let cs = chars_of(hex.as_str());
        let head = crate::chars::slice_of(cs.as_slice(), 0, 8);
        assert(head@ =~= hex@.take(8));
        let mut out = own("[mock:");
        let h = string_of(head.as_slice());
        push_str(&mut out, h.as_str());
        push_str(&mut out, "] ");
        let t = trim_owned(prompt);
        push_str(&mut out, t.as_str());
        out
    }
}

/// An embedder that maps text to a stable unit vector by hashing; the
/// vectors themselves are floating point and are computed by the shell.
#[derive(Debug, Clone, Copy, PartialEq, Eq, Structural)]
pub struct MockEmbedder {
    pub dims: usize,
}

impl Default for MockEmbedder {
    /// The width of `nomic-embed-text`.
    fn default() -> (r: MockEmbedder)
        ensures
            r.dims == 768,
    {
        MockEmbedder { dims: 768 }
    }
}

} // verus!
