//! ARC-LABS: the verified core of a markdown notebook that keeps a ledger.
use vstd::prelude::*;

pub mod api;
pub mod calendar;
pub mod canvas;
pub mod canvas_file;
pub mod chars;
pub mod config;
pub mod doctor;
pub mod draft;
pub mod entry;
pub mod error;
pub mod fidelity;
pub mod frontmatter;
pub mod graph;
pub mod hash;
pub mod index;
pub mod ledger;
pub mod listing;
pub mod mcp;
pub mod path;
pub mod platform;
pub mod proposals;
pub mod render;
pub mod runs;
pub mod seam;
pub mod setup;
pub mod sync;
pub mod templates;
pub mod text;
pub mod tree;
pub mod types;
pub mod vault;
pub mod weave;
pub mod wikilink;

verus! {
}
