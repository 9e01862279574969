//! The MCP bridge's decisions: which JSON-RPC method a request names, which
//! tool a call asks for, and what each answer says.
//!
//! There is no tool that writes. `note_propose`, never `note_write`: an agent
//! on the other end of the protocol cannot change a file, because no tool
//! exists that would; its output lands as a proposal in the ledger and waits
//! for a person. The names an agent might assume a write tool has are
//! answered with what to use instead.
use vstd::prelude::*;
use crate::entry::{dec_digits, decimal, op_touches_file, Op};
use crate::canvas::pair_views;
use crate::canvas_file::{json_object_of, json_quoted, quoted, lookup, object_entries, string_at, string_in, value_of};
use crate::error::problem_text;
use crate::path::{normalise, path_problem, VaultPath};
use crate::index::SearchHit;
use crate::text::{own, push_str};
use crate::types::TimelineEntry;

verus! {

/// JSON-RPC's error codes.
pub const PARSE_ERROR: i64 = -32700;
pub const INVALID_REQUEST: i64 = -32600;
pub const METHOD_NOT_FOUND: i64 = -32601;
pub const INVALID_PARAMS: i64 = -32602;

/// The message for a request that names no method.
pub const NO_METHOD: &'static str = "no method";
/// The message for a tool call that names no tool.
pub const NO_TOOL_NAME: &'static str = "no tool name";

/// The protocol version this speaks.
pub const PROTOCOL_VERSION: &'static str = "2024-11-05";

/// A JSON-RPC method this server knows.
#[derive(Debug, Clone, Copy, PartialEq, Eq, Structural)]
pub enum Method {
    Initialize,
    ToolsList,
    ToolsCall,
    /// The client's notice that it is ready; it gets no answer.
    Initialized,
    Ping,
    Unknown,
}

pub open spec fn method_named(name: Seq<char>) -> Method {
    if name == "initialize"@ {
        Method::Initialize
    } else if name == "tools/list"@ {
        Method::ToolsList
    } else if name == "tools/call"@ {
        Method::ToolsCall
    } else if name == "notifications/initialized"@ || name == "initialized"@ {
        Method::Initialized
    } else if name == "ping"@ {
        Method::Ping
    } else {
        Method::Unknown
    }
}

pub fn method_of(name: &str) -> (r: Method)
    ensures
        r == method_named(name@),
{
    if crate::text::str_eq(name, "initialize") {
        Method::Initialize
    } else if crate::text::str_eq(name, "tools/list") {
        Method::ToolsList
    } else if crate::text::str_eq(name, "tools/call") {
        Method::ToolsCall
    } else if crate::text::str_eq(name, "notifications/initialized") || crate::text::str_eq(
        name,
        "initialized",
    ) {
        Method::Initialized
    } else if crate::text::str_eq(name, "ping") {
        Method::Ping
    } else {
        Method::Unknown
    }
}

/// What to do with a request.
#[derive(Debug, Clone, Copy, PartialEq, Eq, Structural)]
pub enum Dispatch {
    /// It names no method: an invalid request, answered as such.
    Invalid,
    /// Carry it out, and answer only when it had an id; a notification by the
    /// protocol gets no reply.
    Run { method: Method, reply: bool },
    /// The client's ready notice: nothing to do, nothing to say.
    Silent,
}

/// What a request with (or without) an id and a method comes to.
pub fn dispatch(has_id: bool, method: Option<&str>) -> (r: Dispatch)
    ensures
        r == match method {
            None => Dispatch::Invalid,
            Some(m) => if method_named(m@) == Method::Initialized {
                Dispatch::Silent
            } else {
                Dispatch::Run { method: method_named(m@), reply: has_id }
            },
        },
{
    match method {
        None => Dispatch::Invalid,
        Some(m) => {
            let k = method_of(m);
            match k {
                Method::Initialized => Dispatch::Silent,
                _ => Dispatch::Run { method: k, reply: has_id },
            }
        },
    }
}

/// A JSON-RPC request as this server reads it: the id's JSON text if there
/// is one, the method if it is a string, and the params' JSON text (`{}`
/// when there are none).
#[derive(Debug, Clone, PartialEq, Eq)]
pub struct Request {
    pub id: Option<String>,
    pub method: Option<String>,
    pub params: String,
}

pub struct RequestModel {
    pub id: Option<Seq<char>>,
    pub method: Option<Seq<char>>,
    pub params: Seq<char>,
}

impl View for Request {
    type V = RequestModel;

    open spec fn view(&self) -> RequestModel {
        RequestModel {
            id: crate::ledger::string_opt(self.id),
            method: crate::ledger::string_opt(self.method),
            params: self.params@,
        }
    }
}

/// What a parsed request holds: for an object, its `id`, its `method` when
/// that is a string, and its `params`; for JSON that is not an object, none
/// of them. Text that is not JSON holds no request.
pub open spec fn request_parts(
    parsed: Result<Option<Seq<(Seq<char>, Seq<char>)>>, Seq<char>>,
) -> Option<RequestModel> {
    match parsed {
        Err(_) => None,
        Ok(None) => Some(RequestModel { id: None, method: None, params: "{}"@ }),
        Ok(Some(e)) => Some(
            RequestModel {
                id: lookup(e, "id"@),
                method: string_at(e, "method"@),
                params: match lookup(e, "params"@) {
                    Some(p) => p,
                    None => "{}"@,
                },
            },
        ),
    }
}

/// What a request comes to: invalid without a string method, otherwise as
/// `dispatch` decides, answered only when the request has an id.
pub open spec fn dispatch_of(q: RequestModel) -> Dispatch {
    match q.method {
        None => Dispatch::Invalid,
        Some(m) => if method_named(m) == Method::Initialized {
            Dispatch::Silent
        } else {
            Dispatch::Run { method: method_named(m), reply: q.id is Some }
        },
    }
}

/// Reads one JSON-RPC request line with `serde_json`; the parser's message
/// when the text is not JSON.
pub fn read_request(request: &str) -> (r: Result<Request, String>)
    ensures
        match r {
            Err(m) => json_object_of(request@) == Err::<Option<Seq<(Seq<char>, Seq<char>)>>, Seq<char>>(m@),
            Ok(q) => request_parts(json_object_of(request@)) == Some(q@),
        },
{
    proof {
        reveal_strlit("{}");
    }
    match object_entries(request) {
        Err(m) => Err(m),
        Ok(None) => Ok(Request { id: None, method: None, params: own("{}") }),
        Ok(Some(e)) => {
            let id = match value_of(&e, "id") {
                Some(v) => Some(v.clone()),
                None => None,
            };
            let method = string_in(&e, "method");
            let params = match value_of(&e, "params") {
                Some(v) => v.clone(),
                None => own("{}"),
            };
            Ok(Request { id, method, params })
        },
    }
}

impl Request {
    /// What this request comes to.
    pub fn dispatch(&self) -> (r: Dispatch)
        ensures
            r == dispatch_of(self@),
    {
        let m = match &self.method {
            Some(m) => Some(m.as_str()),
            None => None,
        };
        dispatch(self.id.is_some(), m)
    }
}

/// Reads a request line and decides what it comes to, with the id to answer
/// under; the parser's message when the text is not JSON.
pub fn request_dispatch(request: &str) -> (r: Result<(Option<String>, Dispatch), String>)
    ensures
        match r {
            Err(m) => json_object_of(request@) == Err::<Option<Seq<(Seq<char>, Seq<char>)>>, Seq<char>>(m@),
            Ok((id, d)) => request_parts(json_object_of(request@)) matches Some(q) && crate::ledger::string_opt(id)
                == q.id && d == dispatch_of(q),
        },
{
    match read_request(request) {
        Err(m) => Err(m),
        Ok(q) => {
            let d = q.dispatch();
            Ok((q.id, d))
        },
    }
}

/// The tools this server offers.
#[derive(Debug, Clone, Copy, PartialEq, Eq, Structural)]
pub enum Tool {
    VaultSearch,
    NoteRead,
    NotePropose,
    LinkSuggest,
    CanvasRead,
    CanvasRun,
    LedgerRead,
}

pub open spec fn tool_name_of(t: Tool) -> Seq<char> {
    match t {
        Tool::VaultSearch => "vault_search"@,
        Tool::NoteRead => "note_read"@,
        Tool::NotePropose => "note_propose"@,
        Tool::LinkSuggest => "link_suggest"@,
        Tool::CanvasRead => "canvas_read"@,
        Tool::CanvasRun => "canvas_run"@,
        Tool::LedgerRead => "ledger_read"@,
    }
}

/// Every tool, in the order the list shows them.
pub open spec fn listed_tools() -> Seq<Tool> {
    seq![
        Tool::VaultSearch,
        Tool::NoteRead,
        Tool::NotePropose,
        Tool::LinkSuggest,
        Tool::CanvasRead,
        Tool::CanvasRun,
        Tool::LedgerRead,
    ]
}

/// The names an agent might expect a write tool to have.
pub open spec fn is_write_name(name: Seq<char>) -> bool {
    name == "note_write"@ || name == "note_edit"@ || name == "note_save"@ || name == "note_create"@
        || name == "note_delete"@
}

/// What a tool records in a note's ledger, if anything: a proposal from
/// `note_propose`, and from a pipeline run whose output is a note; nothing
/// from a read.
pub open spec fn tool_records(t: Tool) -> Option<Op> {
    match t {
        Tool::NotePropose => Some(Op::Propose),
        Tool::CanvasRun => Some(Op::Propose),
        _ => None,
    }
}

impl Tool {
    pub fn name(self) -> (r: &'static str)
        ensures
            r@ == tool_name_of(self),
    {
        match self {
            Tool::VaultSearch => "vault_search",
            Tool::NoteRead => "note_read",
            Tool::NotePropose => "note_propose",
            Tool::LinkSuggest => "link_suggest",
            Tool::CanvasRead => "canvas_read",
            Tool::CanvasRun => "canvas_run",
            Tool::LedgerRead => "ledger_read",
        }
    }
}

/// Every tool, in the order the list shows them.
pub fn tools() -> (r: Vec<Tool>)
    ensures
        r@ == listed_tools(),
{
    let r = vec![
        Tool::VaultSearch,
        Tool::NoteRead,
        Tool::NotePropose,
        Tool::LinkSuggest,
        Tool::CanvasRead,
        Tool::CanvasRun,
        Tool::LedgerRead,
    ];
    assert(r@ =~= listed_tools());
    r
}

/// What each tool says it does, as the tool list shows it.
pub open spec fn tool_description(t: Tool) -> Seq<char> {
    match t {
        Tool::VaultSearch => "Full-text search across every note in the vault. Returns paths, titles and the sentence around each match."@,
        Tool::NoteRead => "Read one note's markdown source, exactly as it is on disk."@,
        Tool::NotePropose => "Propose a change to a note. THE NOTE IS NOT MODIFIED. The proposal is recorded in the ledger, attributed to you, and a person accepts or rejects it. There is deliberately no tool that writes to a file directly."@,
        Tool::LinkSuggest => "Notes that are semantically close but not linked to each other. These are INFERRED, not observed: each carries the score and the model that produced it."@,
        Tool::CanvasRead => "Read a canvas: its cards, their positions, and the connections between them."@,
        Tool::CanvasRun => "Run a pipeline on a canvas. Any note output becomes a proposal, never a write. Returns a run id; poll canvas_run again with it to see progress."@,
        Tool::LedgerRead => "The history of a note: who changed it, when, why, and whether each entry touched the file. Human entries and agent entries are distinguished."@,
    }
}

/// Each tool's input schema, as compact JSON text.
pub open spec fn tool_schema(t: Tool) -> Seq<char> {
    match t {
        Tool::VaultSearch => "{\"type\":\"object\",\"properties\":{\"query\":{\"type\":\"string\",\"description\":\"What to search for. Whole words and prefixes.\"},\"limit\":{\"type\":\"integer\",\"description\":\"Maximum results (default 20).\"}},\"required\":[\"query\"]}"@,
        Tool::NoteRead => "{\"type\":\"object\",\"properties\":{\"path\":{\"type\":\"string\",\"description\":\"Vault-relative path, e.g. Daily/2026-09-02.md\"}},\"required\":[\"path\"]}"@,
        Tool::NotePropose => "{\"type\":\"object\",\"properties\":{\"path\":{\"type\":\"string\",\"description\":\"Vault-relative path of the note.\"},\"content\":{\"type\":\"string\",\"description\":\"The complete proposed content of the note.\"},\"reason\":{\"type\":\"string\",\"description\":\"Why you are proposing this. Shown to the user.\"},\"agent\":{\"type\":\"string\",\"description\":\"Your name, for attribution.\"},\"model\":{\"type\":\"string\",\"description\":\"The model you are, for attribution.\"}},\"required\":[\"path\",\"content\",\"reason\"]}"@,
        Tool::LinkSuggest => "{\"type\":\"object\",\"properties\":{\"limit\":{\"type\":\"integer\"}}}"@,
        Tool::CanvasRead => "{\"type\":\"object\",\"properties\":{\"path\":{\"type\":\"string\"}},\"required\":[\"path\"]}"@,
        Tool::CanvasRun => "{\"type\":\"object\",\"properties\":{\"path\":{\"type\":\"string\",\"description\":\"The canvas.\"},\"node\":{\"type\":\"string\",\"description\":\"The card to run, with everything it depends on.\"},\"run_id\":{\"type\":\"string\",\"description\":\"Poll an existing run instead of starting one.\"}}}"@,
        Tool::LedgerRead => "{\"type\":\"object\",\"properties\":{\"path\":{\"type\":\"string\"}},\"required\":[\"path\"]}"@,
    }
}

/// One entry of the tool list: the tool's name, description and input
/// schema, as a JSON object.
pub open spec fn definition_text(t: Tool) -> Seq<char> {
    "{\"name\":"@ + json_quoted(tool_name_of(t)) + ",\"description\":"@ + json_quoted(tool_description(t))
        + ",\"inputSchema\":"@ + tool_schema(t) + "}"@
}

/// The tool list, as a JSON array.
pub open spec fn definitions_text(ts: Seq<Tool>) -> Seq<char> {
    "["@ + joined(ts.map_values(|t: Tool| definition_text(t)), ","@) + "]"@
}

impl Tool {
    pub fn description(self) -> (r: &'static str)
        ensures
            r@ == tool_description(self),
    {
        match self {
            Tool::VaultSearch => "Full-text search across every note in the vault. Returns paths, titles and the sentence around each match.",
            Tool::NoteRead => "Read one note's markdown source, exactly as it is on disk.",
            Tool::NotePropose => "Propose a change to a note. THE NOTE IS NOT MODIFIED. The proposal is recorded in the ledger, attributed to you, and a person accepts or rejects it. There is deliberately no tool that writes to a file directly.",
            Tool::LinkSuggest => "Notes that are semantically close but not linked to each other. These are INFERRED, not observed: each carries the score and the model that produced it.",
            Tool::CanvasRead => "Read a canvas: its cards, their positions, and the connections between them.",
            Tool::CanvasRun => "Run a pipeline on a canvas. Any note output becomes a proposal, never a write. Returns a run id; poll canvas_run again with it to see progress.",
            Tool::LedgerRead => "The history of a note: who changed it, when, why, and whether each entry touched the file. Human entries and agent entries are distinguished.",
        }
    }

    pub fn input_schema(self) -> (r: &'static str)
        ensures
            r@ == tool_schema(self),
    {
        match self {
            Tool::VaultSearch => "{\"type\":\"object\",\"properties\":{\"query\":{\"type\":\"string\",\"description\":\"What to search for. Whole words and prefixes.\"},\"limit\":{\"type\":\"integer\",\"description\":\"Maximum results (default 20).\"}},\"required\":[\"query\"]}",
            Tool::NoteRead => "{\"type\":\"object\",\"properties\":{\"path\":{\"type\":\"string\",\"description\":\"Vault-relative path, e.g. Daily/2026-09-02.md\"}},\"required\":[\"path\"]}",
            Tool::NotePropose => "{\"type\":\"object\",\"properties\":{\"path\":{\"type\":\"string\",\"description\":\"Vault-relative path of the note.\"},\"content\":{\"type\":\"string\",\"description\":\"The complete proposed content of the note.\"},\"reason\":{\"type\":\"string\",\"description\":\"Why you are proposing this. Shown to the user.\"},\"agent\":{\"type\":\"string\",\"description\":\"Your name, for attribution.\"},\"model\":{\"type\":\"string\",\"description\":\"The model you are, for attribution.\"}},\"required\":[\"path\",\"content\",\"reason\"]}",
            Tool::LinkSuggest => "{\"type\":\"object\",\"properties\":{\"limit\":{\"type\":\"integer\"}}}",
            Tool::CanvasRead => "{\"type\":\"object\",\"properties\":{\"path\":{\"type\":\"string\"}},\"required\":[\"path\"]}",
            Tool::CanvasRun => "{\"type\":\"object\",\"properties\":{\"path\":{\"type\":\"string\",\"description\":\"The canvas.\"},\"node\":{\"type\":\"string\",\"description\":\"The card to run, with everything it depends on.\"},\"run_id\":{\"type\":\"string\",\"description\":\"Poll an existing run instead of starting one.\"}}}",
            Tool::LedgerRead => "{\"type\":\"object\",\"properties\":{\"path\":{\"type\":\"string\"}},\"required\":[\"path\"]}",
        }
    }

    /// This tool's entry in the tool list.
    pub fn definition(self) -> (r: String)
        ensures
            r@ == definition_text(self),
    {
        let mut out = own("{\"name\":");
        push_str(&mut out, quoted(self.name()).as_str());
        push_str(&mut out, ",\"description\":");
        push_str(&mut out, quoted(self.description()).as_str());
        push_str(&mut out, ",\"inputSchema\":");
        push_str(&mut out, self.input_schema());
        push_str(&mut out, "}");
        out
    }
}

/// Every tool this server offers, as the JSON array `tools/list` answers
/// with. Seven tools, and the only one that changes anything produces a
/// proposal.
pub fn tool_definitions() -> (r: String)
    ensures
        r@ == definitions_text(listed_tools()),
{
    let ts = tools();
    let mut parts: Vec<String> = Vec::new();
    let mut i: usize = 0;
    while i < ts.len()
        invariant
            0 <= i <= ts@.len(),
            ts@ == listed_tools(),
            parts@.len() == i,
            forall|k: int| 0 <= k < i ==> (#[trigger] parts@[k])@ == definition_text(ts@[k]),
        decreases ts@.len() - i,
    {
        parts.push(ts[i].definition());
        i = i + 1;
    }
    let mut body = String::new();
    join_into(&mut body, &parts, ",");
    assert(crate::api::string_views(parts@) =~= listed_tools().map_values(|t: Tool| definition_text(t)));
    let mut out = own("[");
    push_str(&mut out, body.as_str());
    push_str(&mut out, "]");
    out
}

/// What a tool call names.
#[derive(Debug, Clone, Copy, PartialEq, Eq, Structural)]
pub enum ToolChoice {
    Run(Tool),
    /// A write tool an agent assumed exists; answered with what to use
    /// instead.
    WriteRefused,
    Unknown,
}

pub open spec fn tool_named(name: Seq<char>) -> ToolChoice {
    if name == "vault_search"@ {
        ToolChoice::Run(Tool::VaultSearch)
    } else if name == "note_read"@ {
        ToolChoice::Run(Tool::NoteRead)
    } else if name == "note_propose"@ {
        ToolChoice::Run(Tool::NotePropose)
    } else if name == "link_suggest"@ {
        ToolChoice::Run(Tool::LinkSuggest)
    } else if name == "canvas_read"@ {
        ToolChoice::Run(Tool::CanvasRead)
    } else if name == "canvas_run"@ {
        ToolChoice::Run(Tool::CanvasRun)
    } else if name == "ledger_read"@ {
        ToolChoice::Run(Tool::LedgerRead)
    } else if is_write_name(name) {
        ToolChoice::WriteRefused
    } else {
        ToolChoice::Unknown
    }
}

pub fn tool_choice(name: &str) -> (r: ToolChoice)
    ensures
        r == tool_named(name@),
{
    let eq = |a: &str| -> (b: bool)
        ensures
            b == (name@ == a@),
        { crate::text::str_eq(name, a) };
    if eq("vault_search") {
        ToolChoice::Run(Tool::VaultSearch)
    } else if eq("note_read") {
        ToolChoice::Run(Tool::NoteRead)
    } else if eq("note_propose") {
        ToolChoice::Run(Tool::NotePropose)
    } else if eq("link_suggest") {
        ToolChoice::Run(Tool::LinkSuggest)
    } else if eq("canvas_read") {
        ToolChoice::Run(Tool::CanvasRead)
    } else if eq("canvas_run") {
        ToolChoice::Run(Tool::CanvasRun)
    } else if eq("ledger_read") {
        ToolChoice::Run(Tool::LedgerRead)
    } else if eq("note_write") || eq("note_edit") || eq("note_save") || eq("note_create") || eq(
        "note_delete",
    ) {
        ToolChoice::WriteRefused
    } else {
        ToolChoice::Unknown
    }
}

/// There is no tool that writes to a file: nothing a tool records changes the
/// file, every listed tool is called by its own name, no listed name is one
/// an agent would expect a write tool to have, and every such name is
/// refused.
pub proof fn law_no_tool_writes_a_file(name: Seq<char>)
    ensures
        forall|t: Tool| #[trigger] tool_records(t) matches Some(op) ==> !op_touches_file(op),
        forall|k: int|
            0 <= k < listed_tools().len() ==> tool_named(tool_name_of(#[trigger] listed_tools()[k]))
                == ToolChoice::Run(listed_tools()[k]) && !is_write_name(tool_name_of(listed_tools()[k])),
        is_write_name(name) ==> tool_named(name) == ToolChoice::WriteRefused,
        tool_named(name) matches ToolChoice::Run(t) ==> tool_name_of(t) == name,
{
    lemma_names_differ();
    assert(tool_named("vault_search"@) == ToolChoice::Run(Tool::VaultSearch));
    assert(tool_named("note_read"@) == ToolChoice::Run(Tool::NoteRead));
    assert(tool_named("note_propose"@) == ToolChoice::Run(Tool::NotePropose));
    assert(tool_named("link_suggest"@) == ToolChoice::Run(Tool::LinkSuggest));
    assert(tool_named("canvas_read"@) == ToolChoice::Run(Tool::CanvasRead));
    assert(tool_named("canvas_run"@) == ToolChoice::Run(Tool::CanvasRun));
    assert(tool_named("ledger_read"@) == ToolChoice::Run(Tool::LedgerRead));
    assert forall|k: int| 0 <= k < listed_tools().len() implies tool_named(
        tool_name_of(#[trigger] listed_tools()[k]),
    ) == ToolChoice::Run(listed_tools()[k]) && !is_write_name(tool_name_of(listed_tools()[k])) by {
        assert(k == 0 || k == 1 || k == 2 || k == 3 || k == 4 || k == 5 || k == 6);
    }
}

/// The tools' names, and the names of the writes that do not exist, are all
/// different texts.
proof fn lemma_names_differ()
    ensures
        "vault_search"@ != "note_propose"@,
        "vault_search"@ != "link_suggest"@,
        "note_propose"@ != "link_suggest"@,
        "note_read"@ != "note_edit"@,
        "note_read"@ != "note_save"@,
        "note_edit"@ != "note_save"@,
        "canvas_read"@ != "ledger_read"@,
        "canvas_read"@ != "note_create"@,
        "canvas_read"@ != "note_delete"@,
        "ledger_read"@ != "note_create"@,
        "ledger_read"@ != "note_delete"@,
        "note_create"@ != "note_delete"@,
        "canvas_run"@ != "note_write"@,
        "vault_search"@.len() == 12 && "note_propose"@.len() == 12 && "link_suggest"@.len() == 12,
        "note_read"@.len() == 9 && "note_edit"@.len() == 9 && "note_save"@.len() == 9,
        "canvas_read"@.len() == 11 && "ledger_read"@.len() == 11 && "note_create"@.len() == 11
            && "note_delete"@.len() == 11,
        "canvas_run"@.len() == 10 && "note_write"@.len() == 10,
{
    reveal_strlit("vault_search");
    reveal_strlit("note_read");
    reveal_strlit("note_propose");
    reveal_strlit("link_suggest");
    reveal_strlit("canvas_read");
    reveal_strlit("canvas_run");
    reveal_strlit("ledger_read");
    reveal_strlit("note_write");
    reveal_strlit("note_edit");
    reveal_strlit("note_save");
    reveal_strlit("note_create");
    reveal_strlit("note_delete");
    assert("vault_search"@[0] != "note_propose"@[0]);
    assert("vault_search"@[0] != "link_suggest"@[0]);
    assert("note_propose"@[0] != "link_suggest"@[0]);
    assert("note_read"@[5] != "note_edit"@[5]);
    assert("note_read"@[5] != "note_save"@[5]);
    assert("note_edit"@[5] != "note_save"@[5]);
    assert("canvas_read"@[0] != "ledger_read"@[0]);
    assert("canvas_read"@[0] != "note_create"@[0]);
    assert("canvas_read"@[0] != "note_delete"@[0]);
    assert("ledger_read"@[0] != "note_create"@[0]);
    assert("ledger_read"@[0] != "note_delete"@[0]);
    assert("note_create"@[5] != "note_delete"@[5]);
    assert("canvas_run"@[0] != "note_write"@[0]);
}

/// The answer to a call of a write tool: what to use instead.
pub fn write_refusal() -> (r: &'static str)
    ensures
        r@ == "ARC-LABS has no tool that writes to a file. Use note_propose: the change is recorded and attributed to you, and a person accepts or rejects it."@,
{
    "ARC-LABS has no tool that writes to a file. Use note_propose: the change is recorded and attributed to you, and a person accepts or rejects it."
}

/// `format!("{:?}", s)`: the string as Rust's `Debug` writes it, quoted and
/// escaped.
pub uninterp spec fn debug_text(s: Seq<char>) -> Seq<char>;

/// `format!("{:?}", s)`, whose escaping rules are named rather than stated.
#[verifier::external_body]
fn debug_quoted(s: &str) -> (r: String)
    ensures
        r@ == debug_text(s@),
{
    format!("{s:?}")
}

/// The text with every `\n` made a space.
pub open spec fn one_line(s: Seq<char>) -> Seq<char> {
    s.map_values(|c: char| if c == '\n' {
        ' '
    } else {
        c
    })
}

pub open spec fn hit_text(h: SearchHit) -> Seq<char> {
    h.title@ + "\n  "@ + h.path@ + "\n  "@ + one_line(h.snippet@)
}

/// The parts with `sep` between them.
pub open spec fn joined(parts: Seq<Seq<char>>, sep: Seq<char>) -> Seq<char> {
    crate::chars::join_with(parts, sep)
}

/// What `vault_search` answers: each hit's title, path and context, or that
/// nothing matched.
pub open spec fn search_text(q: Seq<char>, hits: Seq<SearchHit>) -> Seq<char> {
    if hits.len() == 0 {
        "No note matches "@ + debug_text(q) + "."@
    } else {
        joined(Seq::new(hits.len(), |k: int| hit_text(hits[k])), "\n\n"@)
    }
}

fn flatten_newlines(s: &str) -> (r: String)
    ensures
        r@ == one_line(s@),
{
    let cs = crate::text::chars_of(s);
    let mut out: Vec<char> = Vec::new();
    let mut i: usize = 0;
    while i < cs.len()
        invariant
            0 <= i <= cs@.len(),
            cs@ == s@,
            out@ == one_line(cs@.take(i as int)),
        decreases cs@.len() - i,
    {
        if cs[i] == '\n' {
            out.push(' ');
        } else {
            out.push(cs[i]);
        }
        assert(one_line(cs@.take(i + 1)) =~= one_line(cs@.take(i as int)).push(
            if cs@[i as int] == '\n' {
                ' '
            } else {
                cs@[i as int]
            },
        ));
        i = i + 1;
    }
    assert(cs@.take(cs@.len() as int) =~= cs@);
    crate::text::string_of(out.as_slice())
}

/// Writes `parts` into the empty `out`, with `sep` between each two.
pub(crate) fn join_into(out: &mut String, parts: &Vec<String>, sep: &str)
    requires
        old(out)@.len() == 0,
    ensures
        final(out)@ == joined(crate::api::string_views(parts@), sep@),
{
    let ghost pv = crate::api::string_views(parts@);
    let mut i: usize = 0;
    while i < parts.len()
        invariant
            0 <= i <= parts@.len(),
            pv == crate::api::string_views(parts@),
            out@ == joined(pv.take(i as int), sep@),
        decreases parts@.len() - i,
    {
        if i > 0 {
            push_str(out, sep);
        }
        push_str(out, parts[i].as_str());
        assert(pv.take(i + 1).drop_last() =~= pv.take(i as int));
        assert(pv.take(i + 1).last() == parts@[i as int]@);
        i = i + 1;
    }
    assert(pv.take(parts@.len() as int) =~= pv);
}

/// What `vault_search` answers for these hits.
pub fn search_answer(q: &str, hits: &Vec<SearchHit>) -> (r: String)
    ensures
        r@ == search_text(q@, hits@),
{
    if hits.len() == 0 {
        let mut s = own("No note matches ");
        let d = debug_quoted(q);
        push_str(&mut s, d.as_str());
        push_str(&mut s, ".");
        return s;
    }
    let mut parts: Vec<String> = Vec::new();
    let mut i: usize = 0;
    while i < hits.len()
        invariant
            0 <= i <= hits@.len(),
            parts@.map_values(|p: String| p@) =~= Seq::new(i as nat, |k: int| hit_text(hits@[k])),
        decreases hits@.len() - i,
    {
        let h = &hits[i];
        let mut t = own(h.title.as_str());
        push_str(&mut t, "\n  ");
        push_str(&mut t, h.path.as_str());
        push_str(&mut t, "\n  ");
        let flat = flatten_newlines(h.snippet.as_str());
        push_str(&mut t, flat.as_str());
        let ghost before = parts@;
        parts.push(t);
        assert(parts@.map_values(|p: String| p@) =~= before.map_values(|p: String| p@).push(
            hit_text(hits@[i as int]),
        ));
        i = i + 1;
    }
    let mut out = String::new();
    join_into(&mut out, &parts, "\n\n");
    out
}

pub open spec fn propose_text(
    path: Seq<char>,
    added: usize,
    removed: usize,
    index: usize,
    agent: Seq<char>,
    model: Seq<char>,
) -> Seq<char> {
    "Proposed a change to "@ + path + " (+"@ + dec_digits(added as nat) + " \u{2212}"@ + dec_digits(
        removed as nat,
    ) + ").\n\nThe note has NOT been modified. The proposal is entry "@ + dec_digits(index as nat)
        + " in its ledger, attributed to "@ + agent + " ("@ + model
        + "), and is waiting for a person to accept or reject it."@
}

/// What `note_propose` answers: that the note was not modified, where the
/// proposal is, and whose it is.
pub fn propose_answer(path: &str, added: usize, removed: usize, index: usize, agent: &str, model: &str) -> (r: String)
    ensures
        r@ == propose_text(path@, added, removed, index, agent@, model@),
{
    let mut s = own("Proposed a change to ");
    push_str(&mut s, path);
    push_str(&mut s, " (+");
    push_str(&mut s, decimal(added as u64).as_str());
    push_str(&mut s, " \u{2212}");
    push_str(&mut s, decimal(removed as u64).as_str());
    push_str(&mut s, ").\n\nThe note has NOT been modified. The proposal is entry ");
    push_str(&mut s, decimal(index as u64).as_str());
    push_str(&mut s, " in its ledger, attributed to ");
    push_str(&mut s, agent);
    push_str(&mut s, " (");
    push_str(&mut s, model);
    push_str(&mut s, "), and is waiting for a person to accept or reject it.");
    s
}

/// A number right-aligned in three columns, as `{:>3}` writes it.
pub open spec fn padded3(n: nat) -> Seq<char> {
    let d = dec_digits(n);
    if d.len() >= 3 {
        d
    } else {
        Seq::new((3 - d.len()) as nat, |k: int| ' ') + d
    }
}

pub open spec fn ledger_line(e: TimelineEntry) -> Seq<char> {
    padded3(e.index as nat) + " "@ + e.ts@ + " "@ + e.actor_kind@ + " "@ + e.actor_id@ + " "@ + e.op@
        + (if e.touched_file {
        seq![]
    } else {
        " (did not touch the file)"@
    }) + "  "@ + e.reason@
}

/// What `ledger_read` answers: one line per entry, marking the ones that did
/// not touch the file, or that there is no history.
pub open spec fn ledger_text(path: Seq<char>, entries: Seq<TimelineEntry>) -> Seq<char> {
    if entries.len() == 0 {
        path + " has no recorded history."@
    } else {
        joined(Seq::new(entries.len(), |k: int| ledger_line(entries[k])), "\n"@)
    }
}

pub fn ledger_answer(path: &str, entries: &Vec<TimelineEntry>) -> (r: String)
    ensures
        r@ == ledger_text(path@, entries@),
{
    if entries.len() == 0 {
        let mut s = own(path);
        push_str(&mut s, " has no recorded history.");
        return s;
    }
    proof {
        reveal_strlit(" ");
    }
    let mut parts: Vec<String> = Vec::new();
    let mut i: usize = 0;
    while i < entries.len()
        invariant
            0 <= i <= entries@.len(),
            parts@.map_values(|p: String| p@) =~= Seq::new(i as nat, |k: int| ledger_line(entries@[k])),
        decreases entries@.len() - i,
    {
        let e = &entries[i];
        let d = decimal(e.index as u64);
        let dl = crate::text::chars_of(d.as_str()).len();
        let mut t = String::new();
        if dl < 3 {
            let mut k: usize = dl;
            assert(t@ =~= Seq::new((k - d@.len()) as nat, |q: int| ' '));
            while k < 3
                invariant
                    d@.len() <= k <= 3,
                    t@ == Seq::new((k - d@.len()) as nat, |q: int| ' '),
                decreases 3 - k,
            {
                proof {
                    reveal_strlit(" ");
                }
                push_str(&mut t, " ");
                assert(t@ =~= Seq::new((k + 1 - d@.len()) as nat, |q: int| ' '));
                k = k + 1;
            }
        }
        push_str(&mut t, d.as_str());
        assert(t@ =~= padded3(e.index as nat));
        push_str(&mut t, " ");
        push_str(&mut t, e.ts.as_str());
        push_str(&mut t, " ");
        push_str(&mut t, e.actor_kind.as_str());
        push_str(&mut t, " ");
        push_str(&mut t, e.actor_id.as_str());
        push_str(&mut t, " ");
        push_str(&mut t, e.op.as_str());
        if !e.touched_file {
            push_str(&mut t, " (did not touch the file)");
        }
        push_str(&mut t, "  ");
        push_str(&mut t, e.reason.as_str());
        let ghost before = parts@;
        parts.push(t);
        assert(parts@.map_values(|p: String| p@) =~= before.map_values(|p: String| p@).push(
            ledger_line(entries@[i as int]),
        ));
        i = i + 1;
    }
    let mut out = String::new();
    join_into(&mut out, &parts, "\n");
    out
}

/// The message for a missing argument.
pub fn required(key: &str) -> (r: String)
    ensures
        r@ == key@ + " is required"@,
{
    let mut s = own(key);
    push_str(&mut s, " is required");
    s
}

/// The message for a method this server does not have.
pub fn no_method(method: &str) -> (r: String)
    ensures
        r@ == "no method "@ + method@,
{
    let mut s = own("no method ");
    push_str(&mut s, method);
    s
}

/// The message for a tool this server does not have.
pub fn no_tool(name: &str) -> (r: String)
    ensures
        r@ == "no tool "@ + name@,
{
    let mut s = own("no tool ");
    push_str(&mut s, name);
    s
}


/// The entries of a parsed JSON object; none for anything else.
pub open spec fn entries_or_none(
    parsed: Result<Option<Seq<(Seq<char>, Seq<char>)>>, Seq<char>>,
) -> Seq<(Seq<char>, Seq<char>)> {
    match parsed {
        Ok(Some(e)) => e,
        _ => seq![],
    }
}

/// The `u64` that `serde_json` reads a number's text as (`Value::as_u64`);
/// `None` for anything that is not a non-negative integer that fits.
pub uninterp spec fn json_u64_of(text: Seq<char>) -> Option<u64>;

/// `serde_json::from_str` into a `Value`, then `as_u64`. The result is named;
/// of it the contract says that a number written in plain decimal digits,
/// as `serde_json` writes a `u64`, reads back as that number (the parser
/// keeps an integer without fraction or exponent as a `u64` while it fits).
#[verifier::external_body]
fn unsigned_value(text: &str) -> (r: Option<u64>)
    ensures
        r == json_u64_of(text@),
        forall|n: u64| text@ == dec_digits(n as nat) ==> r == Some(n),
{
    serde_json::from_str::<serde_json::Value>(text).ok().and_then(|v| v.as_u64())
}

/// The arguments of a tool call: the entries of the JSON object handed as
/// `arguments`, each value as its JSON text.
pub struct Arguments {
    pub entries: Vec<(String, String)>,
}

impl View for Arguments {
    type V = Seq<(Seq<char>, Seq<char>)>;

    open spec fn view(&self) -> Seq<(Seq<char>, Seq<char>)> {
        pair_views(self.entries@)
    }
}

/// A `tools/call` request's params: the tool's name when it is a string, and
/// its arguments (none when they are absent or not an object).
pub struct ToolCall {
    pub name: Option<String>,
    pub arguments: Arguments,
}

/// What the params of a `tools/call` hold: `name` when it is a string, and
/// the entries of `arguments`. Params that are not an object hold neither.
pub open spec fn call_name(params: Seq<char>) -> Option<Seq<char>> {
    match json_object_of(params) {
        Ok(Some(e)) => string_at(e, "name"@),
        _ => None,
    }
}

pub open spec fn call_arguments(params: Seq<char>) -> Seq<(Seq<char>, Seq<char>)> {
    match json_object_of(params) {
        Ok(Some(e)) => match lookup(e, "arguments"@) {
            Some(a) => entries_or_none(json_object_of(a)),
            None => seq![],
        },
        _ => seq![],
    }
}

fn entries_of(text: &str) -> (r: Vec<(String, String)>)
    ensures
        pair_views(r@) == entries_or_none(json_object_of(text@)),
{
    match object_entries(text) {
        Ok(Some(e)) => e,
        _ => Vec::new(),
    }
}

/// Reads the params of a `tools/call`.
pub fn read_tool_call(params: &str) -> (r: ToolCall)
    ensures
        crate::ledger::string_opt(r.name) == call_name(params@),
        r.arguments@ == call_arguments(params@),
{
    match object_entries(params) {
        Ok(Some(e)) => {
            let name = string_in(&e, "name");
            let entries = match value_of(&e, "arguments") {
                Some(a) => entries_of(a.as_str()),
                None => Vec::new(),
            };
            ToolCall { name, arguments: Arguments { entries } }
        },
        _ => ToolCall { name: None, arguments: Arguments { entries: Vec::new() } },
    }
}

impl Arguments {
    /// The string under `key`; the missing-argument message when there is
    /// none or it is not a string.
    pub fn text(&self, key: &str) -> (r: Result<String, String>)
        ensures
            match string_at(self@, key@) {
                Some(s) => r matches Ok(t) && t@ == s,
                None => r matches Err(m) && m@ == key@ + " is required"@,
            },
    {
        match string_in(&self.entries, key) {
            Some(s) => Ok(s),
            None => Err(required(key)),
        }
    }

    /// The string under `key`, or `default`.
    pub fn text_or(&self, key: &str, default: &str) -> (r: String)
        ensures
            r@ == match string_at(self@, key@) {
                Some(s) => s,
                None => default@,
            },
    {
        match string_in(&self.entries, key) {
            Some(s) => s,
            None => own(default),
        }
    }

    /// The count under `key` when it holds a non-negative integer, or
    /// `default`.
    pub fn count(&self, key: &str, default: usize) -> (r: usize)
        ensures
            r == match lookup(self@, key@) {
                Some(t) => match json_u64_of(t) {
                    Some(n) => n as usize,
                    None => default,
                },
                None => default,
            },
    {
        match value_of(&self.entries, key) {
            Some(t) => match unsigned_value(t.as_str()) {
                Some(n) => n as usize,
                None => default,
            },
            None => default,
        }
    }

    /// The vault path under `key`: required, and validated as every shell
    /// validates a path, so a hostile call cannot name a file outside the
    /// vault.
    pub fn path(&self, key: &str) -> (r: Result<VaultPath, String>)
        ensures
            match string_at(self@, key@) {
                None => r matches Err(m) && m@ == key@ + " is required"@,
                Some(s) => match path_problem(s) {
                    None => r matches Ok(p) && p@ == normalise(s),
                    Some(reason) => r matches Err(m) && m@ == "path is not valid inside a vault ("@
                        + problem_text(reason) + "): "@ + s,
                },
            },
    {
        let s = match self.text(key) {
            Ok(s) => s,
            Err(m) => return Err(m),
        };
        match VaultPath::new(s.as_str()) {
            Ok(p) => Ok(p),
            Err(e) => Err(e.message()),
        }
    }
}


/// An integer as JSON writes it.
pub open spec fn int_text(n: int) -> Seq<char> {
    if n < 0 {
        seq!['-'] + dec_digits((-n) as nat)
    } else {
        dec_digits(n as nat)
    }
}

/// The id to answer under: the request's own id text, or `null`.
pub open spec fn id_text(id: Option<Seq<char>>) -> Seq<char> {
    match id {
        Some(t) => t,
        None => "null"@,
    }
}

/// A JSON-RPC answer carrying `result`, a JSON text.
pub open spec fn result_text(id: Option<Seq<char>>, result: Seq<char>) -> Seq<char> {
    "{\"jsonrpc\":\"2.0\",\"id\":"@ + id_text(id) + ",\"result\":"@ + result + "}"@
}

/// A JSON-RPC error answer.
pub open spec fn error_text(id: Option<Seq<char>>, code: int, message: Seq<char>) -> Seq<char> {
    "{\"jsonrpc\":\"2.0\",\"id\":"@ + id_text(id) + ",\"error\":{\"code\":"@ + int_text(code)
        + ",\"message\":"@ + json_quoted(message) + "}}"@
}

/// What a tool call answers: its text, and whether it reports an error. A
/// tool's failure is an answer the agent reads, not a protocol error.
pub open spec fn tool_result_text(text: Seq<char>, is_error: bool) -> Seq<char> {
    "{\"content\":[{\"type\":\"text\",\"text\":"@ + json_quoted(text) + "}],\"isError\":"@ + (if is_error {
        "true"@
    } else {
        "false"@
    }) + "}"@
}

/// What `initialize` answers, for a server of this version.
pub open spec fn initialize_text(version: Seq<char>) -> Seq<char> {
    "{\"protocolVersion\":\"2024-11-05\",\"capabilities\":{\"tools\":{}},\"serverInfo\":{\"name\":\"arc-labs\",\"version\":"@
        + json_quoted(version) + "}}"@
}

fn int_json(n: i64) -> (r: String)
    ensures
        r@ == int_text(n as int),
{
    if n < 0 {
        let m: u64 = ((-(n + 1)) as u64) + 1;
        proof {
            reveal_strlit("-");
        }
        let mut out = own("-");
        push_str(&mut out, decimal(m).as_str());
        out
    } else {
        decimal(n as u64)
    }
}

fn push_id(out: &mut String, id: Option<&str>)
    ensures
        final(out)@ == old(out)@ + id_text(match id {
            Some(t) => Some(t@),
            None => None,
        }),
{
    match id {
        Some(t) => push_str(out, t),
        None => push_str(out, "null"),
    }
}

/// The answer to a request with this id, carrying `result`.
pub fn response(id: Option<&str>, result: &str) -> (r: String)
    ensures
        r@ == result_text(
            match id {
                Some(t) => Some(t@),
                None => None,
            },
            result@,
        ),
{
    let mut out = own("{\"jsonrpc\":\"2.0\",\"id\":");
    push_id(&mut out, id);
    push_str(&mut out, ",\"result\":");
    push_str(&mut out, result);
    push_str(&mut out, "}");
    out
}

/// The error answer to a request with this id.
pub fn error_response(id: Option<&str>, code: i64, message: &str) -> (r: String)
    ensures
        r@ == error_text(
            match id {
                Some(t) => Some(t@),
                None => None,
            },
            code as int,
            message@,
        ),
{
    let mut out = own("{\"jsonrpc\":\"2.0\",\"id\":");
    push_id(&mut out, id);
    push_str(&mut out, ",\"error\":{\"code\":");
    push_str(&mut out, int_json(code).as_str());
    push_str(&mut out, ",\"message\":");
    push_str(&mut out, quoted(message).as_str());
    push_str(&mut out, "}}");
    out
}

/// The result of a tool call.
pub fn tool_result(text: &str, is_error: bool) -> (r: String)
    ensures
        r@ == tool_result_text(text@, is_error),
{
    let mut out = own("{\"content\":[{\"type\":\"text\",\"text\":");
    push_str(&mut out, quoted(text).as_str());
    push_str(&mut out, "}],\"isError\":");
    if is_error {
        push_str(&mut out, "true");
    } else {
        push_str(&mut out, "false");
    }
    push_str(&mut out, "}");
    out
}

/// The result of `initialize`.
pub fn initialize_result(version: &str) -> (r: String)
    ensures
        r@ == initialize_text(version@),
{
    let mut out = own(
        "{\"protocolVersion\":\"2024-11-05\",\"capabilities\":{\"tools\":{}},\"serverInfo\":{\"name\":\"arc-labs\",\"version\":",
    );
    push_str(&mut out, quoted(version).as_str());
    push_str(&mut out, "}}");
    out
}

/// The result of `tools/list`: every tool.
pub fn tools_list_result() -> (r: String)
    ensures
        r@ == "{\"tools\":"@ + definitions_text(listed_tools()) + "}"@,
{
    let mut out = own("{\"tools\":");
    push_str(&mut out, tool_definitions().as_str());
    push_str(&mut out, "}");
    out
}

} // verus!
