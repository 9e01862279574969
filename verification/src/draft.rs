//! Drafting a template with a model: what is asked before the request, and
//! what is made of the answer after it. You read the draft before anything
//! exists on disk; the request itself goes to the model backend.
use vstd::prelude::*;
use crate::api::{ApiError, ErrorCode};
use crate::chars::trimmed;
use crate::config::ModelAccess;
use crate::templates::{clean, cleaned};
use crate::text::{chars_of, own, push_chars, string_of, trim};

verus! {

/// What the model is told it is doing: a reusable skeleton, not a filled-in
/// note, with only the three template variables.
pub const DRAFT_SYSTEM: &'static str = "\
You write reusable note templates in Markdown for a personal notebook.

Rules:
- Output ONLY the template. No explanation, no preamble, no code fences.
- It is a SKELETON to be reused, not a filled-in example. Use headings, empty
  bullets and short prompts, never invented specifics.
- There are exactly THREE placeholders and no others: {{title}} is the note's
  name, {{date}} is today's date, {{time}} is the current time. Never invent a
  placeholder, and never use one as a list item, a step or a heading — a small
  model reliably writes a numbered step whose text is just {{date}} otherwise.
- Start with a single `# {{title}}` heading. Usually that is the only
  placeholder a template needs.
- Leave blanks for the writer to fill: an empty bullet, not a made-up example.
- No emoji. This notebook does not use them, and a template that arrives full
  of them is one the writer has to clean up before it is usable.
- Keep it short. A template someone has to delete half of is a bad template.

The template is for:";

/// Why an empty description is refused.
pub open spec fn empty_description_text() -> Seq<char> {
    "describe the template you want"@
}

/// Why a remote endpoint is refused under local-only access.
pub open spec fn remote_refusal_text(endpoint: Seq<char>) -> Seq<char> {
    endpoint
        + " is not on this machine, and model access is set to local-only. Change it in Settings → Models if you meant to allow it."@
}

/// Why an answer with nothing in it after cleaning is refused.
pub open spec fn empty_answer_text(model: Seq<char>) -> Seq<char> {
    model
        + " returned nothing usable. A reasoning model can spend its whole budget before writing anything — try a smaller instruct model in Settings → Models."@
}

/// The prompt a description becomes.
pub open spec fn draft_prompt_text(description: Seq<char>) -> Seq<char> {
    DRAFT_SYSTEM@ + " "@ + trim(description) + "\n"@
}

/// Everything decided before a template is drafted, given whether the
/// configured endpoint is on this machine: a blank description is refused
/// before any request is made; a remote endpoint is refused when model access
/// is local-only; otherwise the prompt to send. Nothing is written either way.
pub fn draft_prompt(description: &str, endpoint: &str, endpoint_is_local: bool, access: ModelAccess) -> (r:
    Result<String, ApiError>)
    ensures
        trim(description@).len() == 0 ==> (r matches Err(e) && e.code == ErrorCode::Config
            && e.message@ == empty_description_text()),
        trim(description@).len() > 0 && !endpoint_is_local && access == ModelAccess::LocalOnly
            ==> (r matches Err(e) && e.code == ErrorCode::NotPermitted && e.message@
            == remote_refusal_text(endpoint@)),
        trim(description@).len() > 0 && (endpoint_is_local || access != ModelAccess::LocalOnly)
            ==> (r matches Ok(p) && p@ == draft_prompt_text(description@)),
{
    let cs = chars_of(description);
    let d = trimmed(cs.as_slice());
    if d.len() == 0 {
        return Err(ApiError::new(ErrorCode::Config, "describe the template you want"));
    }
    if !endpoint_is_local {
        match access {
            ModelAccess::LocalOnly => {
                let mut m = own(endpoint);
                push_chars(
                    &mut m,
                    " is not on this machine, and model access is set to local-only. Change it in Settings → Models if you meant to allow it.",
                );
                return Err(ApiError::new(ErrorCode::NotPermitted, m.as_str()));
            },
            ModelAccess::TrustedEndpoint | ModelAccess::AskEachRun => {},
        }
    }
    let mut p = own(DRAFT_SYSTEM);
    push_chars(&mut p, " ");
    let ds = string_of(d.as_slice());
    push_chars(&mut p, ds.as_str());
    push_chars(&mut p, "\n");
    Ok(p)
}

/// What a model's answer becomes: the template with the fence and the
/// surrounding whitespace removed, or, when nothing is left, a refusal that
/// says so rather than a blank template.
pub fn drafted_template(generated: &str, model: &str) -> (r: Result<String, ApiError>)
    ensures
        trim(cleaned(generated@)).len() == 0 ==> (r matches Err(e) && e.code == ErrorCode::Io
            && e.message@ == empty_answer_text(model@)),
        trim(cleaned(generated@)).len() > 0 ==> (r matches Ok(t) && t@ == cleaned(generated@)),
{
    let text = clean(generated);
    let cs = chars_of(text.as_str());
    let t = trimmed(cs.as_slice());
    if t.len() == 0 {
        let mut m = own(model);
        push_chars(
            &mut m,
            " returned nothing usable. A reasoning model can spend its whole budget before writing anything — try a smaller instruct model in Settings → Models.",
        );
        return Err(ApiError::new(ErrorCode::Io, m.as_str()));
    }
    Ok(text)
}

} // verus!
