//! A parsed `.canvas` file, written back byte for byte.
//!
//! Obsidian keeps whatever key order a node last had, so nodes and edges are
//! held as ordered lists of keys and values, never as structs with named
//! fields: a key keeps its place when its value changes, and keys this build
//! does not know are carried through because they were never discarded. Each
//! value is held as its compact JSON text. Reading JSON, quoting a string and
//! pretty-printing are `serde_json`'s work; which keys are taken out, which
//! items are nodes, and how the file is put back together are decided here.
//!
//! A canvas that was opened and not edited writes back its original bytes,
//! however unusual their formatting: the rendering of the canvas is compared
//! with the rendering of a fresh read of those bytes, and when they agree the
//! bytes themselves are returned.
use vstd::prelude::*;
use crate::canvas::{
    canvas_text, detected, pair_views, string_views, ArcKind, CanvasError, CanvasFormat, Indent, NodeKind,
};
use crate::chars::join_with;
use crate::text::{own, push_str, str_eq};

verus! {

/// What `serde_json` reads `text` as: for an object, its entries in file
/// order, each value as its compact JSON text; `None` for JSON that is not an
/// object; the parser's message when `text` is not JSON.
pub uninterp spec fn json_object_of(text: Seq<char>) -> Result<Option<Seq<(Seq<char>, Seq<char>)>>, Seq<char>>;

/// The items of a JSON array, each as its compact JSON text; `None` when
/// `text` is not an array.
pub uninterp spec fn json_array_of(text: Seq<char>) -> Option<Seq<Seq<char>>>;

/// The string a JSON string literal denotes; `None` when `text` is not one.
pub uninterp spec fn json_string_of(text: Seq<char>) -> Option<Seq<char>>;

/// A lowercase hexadecimal digit.
pub open spec fn hex_lower(n: int) -> char {
    if n < 10 {
        (48 + n) as char
    } else {
        (87 + n) as char
    }
}

/// How `serde_json` writes one character inside a string literal: a quote
/// and a backslash escaped, the five short escapes, any other character below
/// U+0020 as `\u00XX` in lowercase hex, and everything else as it is.
pub open spec fn json_escape(c: char) -> Seq<char> {
    if c == '"' {
        seq!['\\', '"']
    } else if c == '\\' {
        seq!['\\', '\\']
    } else if c == '\u{8}' {
        seq!['\\', 'b']
    } else if c == '\t' {
        seq!['\\', 't']
    } else if c == '\n' {
        seq!['\\', 'n']
    } else if c == '\u{c}' {
        seq!['\\', 'f']
    } else if c == '\r' {
        seq!['\\', 'r']
    } else if (c as u32) < 32 {
        seq!['\\', 'u', '0', '0', hex_lower((c as int) / 16), hex_lower((c as int) % 16)]
    } else {
        seq![c]
    }
}

pub open spec fn json_escaped(s: Seq<char>) -> Seq<char>
    decreases s.len(),
{
    if s.len() == 0 {
        seq![]
    } else {
        json_escaped(s.drop_last()) + json_escape(s.last())
    }
}

/// The JSON string literal for `s`, as `serde_json` writes it.
pub open spec fn json_quoted(s: Seq<char>) -> Seq<char> {
    seq!['"'] + json_escaped(s) + seq!['"']
}

/// The pretty-printed form of the JSON value in `text`.
pub uninterp spec fn json_pretty_of(text: Seq<char>) -> Seq<char>;

/// Reads `text` with `serde_json::from_str` as a `serde_json::Value`; for an
/// object, hands back its entries in order (the `preserve_order` map), each
/// value written back with `serde_json::to_string`. The contract names the
/// result, and says of it only that empty text is not JSON (the parser
/// reports the end of input where a value was expected).
#[verifier::external_body]
pub(crate) fn object_entries(text: &str) -> (r: Result<Option<Vec<(String, String)>>, String>)
    ensures
        text@.len() == 0 ==> r is Err,
        match r {
            Ok(Some(v)) => json_object_of(text@) == Ok::<
                Option<Seq<(Seq<char>, Seq<char>)>>,
                Seq<char>,
            >(Some(pair_views(v@))),
            Ok(None) => json_object_of(text@) == Ok::<
                Option<Seq<(Seq<char>, Seq<char>)>>,
                Seq<char>,
            >(None),
            Err(m) => json_object_of(text@) == Err::<
                Option<Seq<(Seq<char>, Seq<char>)>>,
                Seq<char>,
            >(m@),
        },
{
    match serde_json::from_str::<serde_json::Value>(text) {
        Ok(serde_json::Value::Object(m)) => Ok(
            Some(m.into_iter().map(|(k, v)| (k, serde_json::to_string(&v).unwrap_or_default())).collect()),
        ),
        Ok(_) => Ok(None),
        Err(e) => Err(e.to_string()),
    }
}

/// Reads `text` with `serde_json::from_str`; for an array, hands back its
/// items written back with `serde_json::to_string`. Named, not stated.
#[verifier::external_body]
fn array_items(text: &str) -> (r: Option<Vec<String>>)
    ensures
        match r {
            Some(v) => json_array_of(text@) == Some(string_views(v@)),
            None => json_array_of(text@) is None,
        },
{
    match serde_json::from_str::<serde_json::Value>(text) {
        Ok(serde_json::Value::Array(a)) => Some(
            a.iter().map(|v| serde_json::to_string(v).unwrap_or_default()).collect(),
        ),
        _ => None,
    }
}

/// `serde_json::from_str::<String>`: the string a JSON string literal
/// denotes. Named, not stated.
#[verifier::external_body]
fn string_value(text: &str) -> (r: Option<String>)
    ensures
        match r {
            Some(s) => json_string_of(text@) == Some(s@),
            None => json_string_of(text@) is None,
        },
{
    serde_json::from_str::<String>(text).ok()
}

/// `serde_json::to_string` of a string: its JSON literal, escaped as
/// `json_quoted` says (serde_json's `format_escaped_str`).
#[verifier::external_body]
pub(crate) fn quoted(s: &str) -> (r: String)
    ensures
        r@ == json_quoted(s@),
{
    serde_json::to_string(s).unwrap_or_default()
}

/// `serde_json::to_string_pretty` of the value `text` holds. Named, not stated.
#[verifier::external_body]
fn pretty(text: &str) -> (r: String)
    ensures
        r@ == json_pretty_of(text@),
{
    serde_json::from_str::<serde_json::Value>(text).ok().and_then(
        |v| serde_json::to_string_pretty(&v).ok(),
    ).unwrap_or_default()
}

/// The value of the first entry with this key.
pub open spec fn lookup(e: Seq<(Seq<char>, Seq<char>)>, key: Seq<char>) -> Option<Seq<char>>
    decreases e.len(),
{
    if e.len() == 0 {
        None
    } else if e[0].0 == key {
        Some(e[0].1)
    } else {
        lookup(e.drop_first(), key)
    }
}

/// The entries without the first one that has this key.
pub open spec fn without(e: Seq<(Seq<char>, Seq<char>)>, key: Seq<char>) -> Seq<(Seq<char>, Seq<char>)>
    decreases e.len(),
{
    if e.len() == 0 {
        e
    } else if e[0].0 == key {
        e.drop_first()
    } else {
        seq![e[0]] + without(e.drop_first(), key)
    }
}

/// The entries with this key's value replaced where it stands, or the entry
/// added at the end when there was none.
pub open spec fn with_value(e: Seq<(Seq<char>, Seq<char>)>, key: Seq<char>, value: Seq<char>) -> Seq<(Seq<char>, Seq<char>)>
    decreases e.len(),
{
    if e.len() == 0 {
        seq![(key, value)]
    } else if e[0].0 == key {
        e.update(0, (key, value))
    } else {
        seq![e[0]] + with_value(e.drop_first(), key, value)
    }
}

/// The string under a key, when the key is there and holds a string.
pub open spec fn string_at(e: Seq<(Seq<char>, Seq<char>)>, key: Seq<char>) -> Option<Seq<char>> {
    match lookup(e, key) {
        Some(t) => json_string_of(t),
        None => None,
    }
}

/// A key's string, or nothing.
pub open spec fn string_or_empty(e: Seq<(Seq<char>, Seq<char>)>, key: Seq<char>) -> Seq<char> {
    match string_at(e, key) {
        Some(s) => s,
        None => seq![],
    }
}

/// The items of a top-level array: none when the key is absent, `None` when
/// it holds something other than an array.
pub open spec fn taken(e: Seq<(Seq<char>, Seq<char>)>, key: Seq<char>) -> Option<Seq<Seq<char>>> {
    match lookup(e, key) {
        None => Some(seq![]),
        Some(t) => json_array_of(t),
    }
}

/// The items that are objects, as their entries, in order; others are
/// dropped.
pub open spec fn objects_of(items: Seq<Seq<char>>) -> Seq<Seq<(Seq<char>, Seq<char>)>>
    decreases items.len(),
{
    if items.len() == 0 {
        seq![]
    } else {
        let rest = objects_of(items.drop_first());
        match json_object_of(items[0]) {
            Ok(Some(e)) => seq![e] + rest,
            _ => rest,
        }
    }
}

/// What a canvas holds.
pub struct CanvasModel {
    pub nodes: Seq<Seq<(Seq<char>, Seq<char>)>>,
    pub edges: Seq<Seq<(Seq<char>, Seq<char>)>>,
    /// Top-level keys other than `nodes` and `edges`, in order.
    pub extra: Seq<(Seq<char>, Seq<char>)>,
    pub format: CanvasFormat,
    /// The text it was read from.
    pub original: Seq<char>,
}

/// Why reading a canvas failed.
pub enum ParseProblem {
    Json(Seq<char>),
    NotAnObject,
    NotAnArray(Seq<char>),
    NodeWithoutId,
}

pub open spec fn problem_of(e: CanvasError) -> ParseProblem {
    match e {
        CanvasError::Json(m) => ParseProblem::Json(m@),
        CanvasError::NotAnObject => ParseProblem::NotAnObject,
        CanvasError::NotAnArray { field } => ParseProblem::NotAnArray(field@),
        CanvasError::NodeWithoutId => ParseProblem::NodeWithoutId,
    }
}

/// What reading `source` gives: the top-level object, its `nodes` and then
/// its `edges` taken out as arrays of objects, everything else kept, and the
/// formatting detected.
pub open spec fn canvas_parse(source: Seq<char>) -> Result<CanvasModel, ParseProblem> {
    match json_object_of(source) {
        Err(m) => Err(ParseProblem::Json(m)),
        Ok(None) => Err(ParseProblem::NotAnObject),
        Ok(Some(top)) => match taken(top, "nodes"@) {
            None => Err(ParseProblem::NotAnArray("nodes"@)),
            Some(ns) => {
                let rest = without(top, "nodes"@);
                match taken(rest, "edges"@) {
                    None => Err(ParseProblem::NotAnArray("edges"@)),
                    Some(es) => Ok(
                        CanvasModel {
                            nodes: objects_of(ns),
                            edges: objects_of(es),
                            extra: without(rest, "edges"@),
                            format: detected(source),
                            original: source,
                        },
                    ),
                }
            },
        },
    }
}

/// An object's compact JSON: its entries in order, keys quoted.
pub open spec fn compact_object(e: Seq<(Seq<char>, Seq<char>)>) -> Seq<char> {
    "{"@ + join_with(Seq::new(e.len(), |k: int| json_quoted(e[k].0) + ":"@ + e[k].1), ","@) + "}"@
}

/// A node or edge as the format writes it: compact, or pretty-printed.
pub open spec fn element_json(f: CanvasFormat, e: Seq<(Seq<char>, Seq<char>)>) -> Seq<char> {
    if f.compact_elements {
        compact_object(e)
    } else {
        json_pretty_of(compact_object(e))
    }
}

/// Another top-level value as the format writes it.
pub open spec fn extra_json(f: CanvasFormat, v: Seq<char>) -> Seq<char> {
    if f.compact_elements {
        v
    } else {
        json_pretty_of(v)
    }
}

/// The file a canvas renders to in its own format.
pub open spec fn rendered(m: CanvasModel) -> Seq<char> {
    canvas_text(
        m.format,
        Seq::new(m.nodes.len(), |k: int| element_json(m.format, m.nodes[k])),
        Seq::new(m.edges.len(), |k: int| element_json(m.format, m.edges[k])),
        Seq::new(m.extra.len(), |k: int| (m.extra[k].0, extra_json(m.format, m.extra[k].1))),
    )
}

/// What a fresh read of `source` renders to; nothing when it cannot be read.
pub open spec fn rendered_from(source: Seq<char>) -> Seq<char> {
    match canvas_parse(source) {
        Ok(m) => rendered(m),
        Err(_) => seq![],
    }
}

/// What writing a canvas gives: its original bytes when its rendering still
/// matches theirs, else its rendering.
pub open spec fn serialized(m: CanvasModel) -> Seq<char> {
    if m.original.len() > 0 && rendered(m) == rendered_from(m.original) {
        m.original
    } else {
        rendered(m)
    }
}

fn find_key(e: &Vec<(String, String)>, key: &str) -> (r: Option<usize>)
    ensures
        match r {
            Some(i) => i < e@.len() && e@[i as int].0@ == key@ && forall|j: int|
                0 <= j < i ==> (#[trigger] e@[j]).0@ != key@,
            None => forall|j: int| 0 <= j < e@.len() ==> (#[trigger] e@[j]).0@ != key@,
        },
{
    let mut i: usize = 0;
    while i < e.len()
        invariant
            0 <= i <= e@.len(),
            forall|j: int| 0 <= j < i ==> (#[trigger] e@[j]).0@ != key@,
        decreases e@.len() - i,
    {
        if str_eq(e[i].0.as_str(), key) {
            return Some(i);
        }
        i = i + 1;
    }
    None
}

proof fn lemma_found(e: Seq<(Seq<char>, Seq<char>)>, key: Seq<char>, i: int)
    requires
        0 <= i < e.len(),
        e[i].0 == key,
        forall|j: int| 0 <= j < i ==> (#[trigger] e[j]).0 != key,
    ensures
        lookup(e, key) == Some(e[i].1),
        without(e, key) == e.remove(i),
    decreases i,
{
    if i > 0 {
        assert(e[0].0 != key);
        let t = e.drop_first();
        assert forall|j: int| 0 <= j < i - 1 implies (#[trigger] t[j]).0 != key by {
            assert(t[j] == e[j + 1]);
        }
        lemma_found(t, key, i - 1);
        assert(seq![e[0]] + t.remove(i - 1) =~= e.remove(i));
    } else {
        assert(e.drop_first() =~= e.remove(0));
    }
}

proof fn lemma_absent(e: Seq<(Seq<char>, Seq<char>)>, key: Seq<char>)
    requires
        forall|j: int| 0 <= j < e.len() ==> (#[trigger] e[j]).0 != key,
    ensures
        lookup(e, key) is None,
        without(e, key) == e,
    decreases e.len(),
{
    if e.len() > 0 {
        assert(e[0].0 != key);
        let t = e.drop_first();
        assert forall|j: int| 0 <= j < t.len() implies (#[trigger] t[j]).0 != key by {
            assert(t[j] == e[j + 1]);
        }
        lemma_absent(t, key);
        assert(seq![e[0]] + t =~= e);
    }
}

proof fn lemma_with_value_found(e: Seq<(Seq<char>, Seq<char>)>, key: Seq<char>, v: Seq<char>, i: int)
    requires
        0 <= i < e.len(),
        e[i].0 == key,
        forall|j: int| 0 <= j < i ==> (#[trigger] e[j]).0 != key,
    ensures
        with_value(e, key, v) == e.update(i, (key, v)),
    decreases i,
{
    if i > 0 {
        let t = e.drop_first();
        assert forall|j: int| 0 <= j < i - 1 implies (#[trigger] t[j]).0 != key by {
            assert(t[j] == e[j + 1]);
        }
        lemma_with_value_found(t, key, v, i - 1);
        assert(seq![e[0]] + t.update(i - 1, (key, v)) =~= e.update(i, (key, v)));
    }
}

proof fn lemma_with_value_absent(e: Seq<(Seq<char>, Seq<char>)>, key: Seq<char>, v: Seq<char>)
    requires
        forall|j: int| 0 <= j < e.len() ==> (#[trigger] e[j]).0 != key,
    ensures
        with_value(e, key, v) == e.push((key, v)),
    decreases e.len(),
{
    if e.len() > 0 {
        let t = e.drop_first();
        assert forall|j: int| 0 <= j < t.len() implies (#[trigger] t[j]).0 != key by {
            assert(t[j] == e[j + 1]);
        }
        lemma_with_value_absent(t, key, v);
        assert(seq![e[0]] + t.push((key, v)) =~= e.push((key, v)));
    }
}

/// The value text under a key.
pub(crate) fn value_of<'a>(e: &'a Vec<(String, String)>, key: &str) -> (r: Option<&'a String>)
    ensures
        match r {
            Some(v) => lookup(pair_views(e@), key@) == Some(v@),
            None => lookup(pair_views(e@), key@) is None,
        },
{
    let ghost pv = pair_views(e@);
    match find_key(e, key) {
        Some(i) => {
            proof {
                assert forall|j: int| 0 <= j < i implies (#[trigger] pv[j]).0 != key@ by {
                    assert(pv[j].0 == e@[j].0@);
                }
                lemma_found(pv, key@, i as int);
            }
            Some(&e[i].1)
        },
        None => {
            proof {
                assert forall|j: int| 0 <= j < pv.len() implies (#[trigger] pv[j]).0 != key@ by {
                    assert(pv[j].0 == e@[j].0@);
                }
                lemma_absent(pv, key@);
            }
            None
        },
    }
}

/// The string under a key.
pub(crate) fn string_in(e: &Vec<(String, String)>, key: &str) -> (r: Option<String>)
    ensures
        match r {
            Some(s) => string_at(pair_views(e@), key@) == Some(s@),
            None => string_at(pair_views(e@), key@) is None,
        },
{
    match value_of(e, key) {
        Some(t) => string_value(t.as_str()),
        None => None,
    }
}

/// A key's string, or the empty string.
fn string_or_default(e: &Vec<(String, String)>, key: &str) -> (r: String)
    ensures
        r@ == string_or_empty(pair_views(e@), key@),
{
    match string_in(e, key) {
        Some(s) => s,
        None => String::new(),
    }
}

/// The keys, in order.
fn keys_of(e: &Vec<(String, String)>) -> (r: Vec<String>)
    ensures
        r@.len() == e@.len(),
        forall|i: int| 0 <= i < r@.len() ==> #[trigger] r@[i]@ == e@[i].0@,
{
    let mut out: Vec<String> = Vec::new();
    let mut i: usize = 0;
    while i < e.len()
        invariant
            0 <= i <= e@.len(),
            out@.len() == i,
            forall|k: int| 0 <= k < i ==> #[trigger] out@[k]@ == e@[k].0@,
        decreases e@.len() - i,
    {
        out.push(own(e[i].0.as_str()));
        i = i + 1;
    }
    out
}

/// The object's compact JSON.
fn compact_text(e: &Vec<(String, String)>) -> (r: String)
    ensures
        r@ == compact_object(pair_views(e@)),
{
    let ghost pv = pair_views(e@);
    let ghost f = |k: int| json_quoted(pv[k].0) + ":"@ + pv[k].1;
    proof {
        reveal_strlit("{");
        reveal_strlit("}");
        reveal_strlit(",");
        reveal_strlit(":");
    }
    let mut body = String::new();
    let mut i: usize = 0;
    while i < e.len()
        invariant
            0 <= i <= e@.len(),
            pv == pair_views(e@),
            f == (|k: int| json_quoted(pv[k].0) + ":"@ + pv[k].1),
            body@ == join_with(Seq::new(i as nat, f), ","@),
        decreases e@.len() - i,
    {
        if i > 0 {
            push_str(&mut body, ",");
        }
        let q = quoted(e[i].0.as_str());
        push_str(&mut body, q.as_str());
        push_str(&mut body, ":");
        push_str(&mut body, e[i].1.as_str());
        assert(Seq::new((i + 1) as nat, f).drop_last() =~= Seq::new(i as nat, f));
        assert(Seq::new((i + 1) as nat, f).last() == f(i as int));
        i = i + 1;
    }
    let mut out = own("{");
    push_str(&mut out, body.as_str());
    push_str(&mut out, "}");
    out
}

/// One node, as the ordered entries of its JSON object.
#[derive(Debug, Clone)]
pub struct Node {
    entries: Vec<(String, String)>,
}

impl View for Node {
    type V = Seq<(Seq<char>, Seq<char>)>;

    closed spec fn view(&self) -> Seq<(Seq<char>, Seq<char>)> {
        pair_views(self.entries@)
    }
}

/// One edge, held like a node.
#[derive(Debug, Clone)]
pub struct Edge {
    entries: Vec<(String, String)>,
}

impl View for Edge {
    type V = Seq<(Seq<char>, Seq<char>)>;

    closed spec fn view(&self) -> Seq<(Seq<char>, Seq<char>)> {
        pair_views(self.entries@)
    }
}

pub open spec fn node_kind_of(e: Seq<(Seq<char>, Seq<char>)>) -> NodeKind {
    let t = string_or_empty(e, "type"@);
    if t == "text"@ {
        NodeKind::Text
    } else if t == "file"@ {
        NodeKind::File
    } else if t == "link"@ {
        NodeKind::Link
    } else if t == "group"@ {
        NodeKind::Group
    } else {
        NodeKind::Unknown
    }
}

/// The ARC node type kept under the node's `arc` key, if any.
pub open spec fn arc_kind_of(e: Seq<(Seq<char>, Seq<char>)>) -> Option<ArcKind> {
    match lookup(e, "arc"@) {
        Some(t) => match json_object_of(t) {
            Ok(Some(inner)) => match string_at(inner, "kind"@) {
                Some(k) => if k == "prompt"@ {
                    Some(ArcKind::Prompt)
                } else if k == "query"@ {
                    Some(ArcKind::Query)
                } else if k == "transform"@ {
                    Some(ArcKind::Transform)
                } else {
                    None
                },
                None => None,
            },
            _ => None,
        },
        None => None,
    }
}

impl Node {
    /// Its `id`, or the empty string.
    pub fn id(&self) -> (r: String)
        ensures
            r@ == string_or_empty(self@, "id"@),
    {
        string_or_default(&self.entries, "id")
    }

    pub fn kind(&self) -> (r: NodeKind)
        ensures
            r == node_kind_of(self@),
    {
        let t = string_or_default(&self.entries, "type");
        NodeKind::from_str(t.as_str())
    }

    /// The ARC node type, if this is one of ours.
    pub fn arc_kind(&self) -> (r: Option<ArcKind>)
        ensures
            r == arc_kind_of(self@),
    {
        let t = match value_of(&self.entries, "arc") {
            Some(t) => t,
            None => return None,
        };
        let inner = match object_entries(t.as_str()) {
            Ok(Some(inner)) => inner,
            _ => return None,
        };
        match string_in(&inner, "kind") {
            Some(k) => ArcKind::from_str(k.as_str()),
            None => None,
        }
    }

    /// For a `file` node: the vault-relative path it shows.
    pub fn file(&self) -> (r: Option<String>)
        ensures
            opt_seq(r) == string_at(self@, "file"@),
    {
        string_in(&self.entries, "file")
    }

    /// For a `text` node: its markdown.
    pub fn text(&self) -> (r: Option<String>)
        ensures
            opt_seq(r) == string_at(self@, "text"@),
    {
        string_in(&self.entries, "text")
    }

    pub fn url(&self) -> (r: Option<String>)
        ensures
            opt_seq(r) == string_at(self@, "url"@),
    {
        string_in(&self.entries, "url")
    }

    pub fn color(&self) -> (r: Option<String>)
        ensures
            opt_seq(r) == string_at(self@, "color"@),
    {
        string_in(&self.entries, "color")
    }

    /// The JSON text under a key, as written.
    pub fn value(&self, key: &str) -> (r: Option<String>)
        ensures
            opt_seq(r) == lookup(self@, key@),
    {
        match value_of(&self.entries, key) {
            Some(v) => Some(own(v.as_str())),
            None => None,
        }
    }

    /// Its keys, in the order the file has them.
    pub fn keys(&self) -> (r: Vec<String>)
        ensures
            r@.len() == self@.len(),
            forall|i: int| 0 <= i < r@.len() ==> #[trigger] r@[i]@ == self@[i].0,
    {
        keys_of(&self.entries)
    }

    /// Sets a key's value, given as JSON text. An existing key is assigned in
    /// place, so it keeps its position and the file its key order; a new key
    /// goes at the end.
    pub fn set_value(&mut self, key: &str, json: String)
        ensures
            final(self)@ == with_value(old(self)@, key@, json@),
    {
        let ghost pv = pair_views(self.entries@);
        match find_key(&self.entries, key) {
            Some(i) => {
                proof {
                    assert forall|j: int| 0 <= j < i implies (#[trigger] pv[j]).0 != key@ by {
                        assert(pv[j].0 == self.entries@[j].0@);
                    }
                    lemma_with_value_found(pv, key@, json@, i as int);
                }
                let k = own(key);
                self.entries.set(i, (k, json));
                assert(pair_views(self.entries@) =~= pv.update(i as int, (key@, json@)));
            },
            None => {
                proof {
                    assert forall|j: int| 0 <= j < pv.len() implies (#[trigger] pv[j]).0 != key@ by {
                        assert(pv[j].0 == self.entries@[j].0@);
                    }
                    lemma_with_value_absent(pv, key@, json@);
                }
                let k = own(key);
                self.entries.push((k, json));
                assert(pair_views(self.entries@) =~= pv.push((key@, json@)));
            },
        }
    }

    /// Sets a `text` node's markdown.
    pub fn set_text(&mut self, text: &str)
        ensures
            final(self)@ == with_value(old(self)@, "text"@, json_quoted(text@)),
    {
        let q = quoted(text);
        self.set_value("text", q);
    }

    /// The entries, in order.
    pub fn entries(&self) -> (r: &Vec<(String, String)>)
        ensures
            pair_views(r@) == self@,
    {
        &self.entries
    }
}

impl Edge {
    pub fn id(&self) -> (r: String)
        ensures
            r@ == string_or_empty(self@, "id"@),
    {
        string_or_default(&self.entries, "id")
    }

    /// The node it starts at: `fromNode`.
    pub fn from_node(&self) -> (r: String)
        ensures
            r@ == string_or_empty(self@, "fromNode"@),
    {
        string_or_default(&self.entries, "fromNode")
    }

    /// The node it ends at: `toNode`.
    pub fn to_node(&self) -> (r: String)
        ensures
            r@ == string_or_empty(self@, "toNode"@),
    {
        string_or_default(&self.entries, "toNode")
    }

    pub fn from_side(&self) -> (r: Option<String>)
        ensures
            opt_seq(r) == string_at(self@, "fromSide"@),
    {
        string_in(&self.entries, "fromSide")
    }

    pub fn to_side(&self) -> (r: Option<String>)
        ensures
            opt_seq(r) == string_at(self@, "toSide"@),
    {
        string_in(&self.entries, "toSide")
    }

    pub fn label(&self) -> (r: Option<String>)
        ensures
            opt_seq(r) == string_at(self@, "label"@),
    {
        string_in(&self.entries, "label")
    }

    pub fn color(&self) -> (r: Option<String>)
        ensures
            opt_seq(r) == string_at(self@, "color"@),
    {
        string_in(&self.entries, "color")
    }

    /// The entries, in order.
    pub fn entries(&self) -> (r: &Vec<(String, String)>)
        ensures
            pair_views(r@) == self@,
    {
        &self.entries
    }
}

pub open spec fn opt_seq(o: Option<String>) -> Option<Seq<char>> {
    match o {
        Some(s) => Some(s@),
        None => None,
    }
}

pub open spec fn node_views(ns: Seq<Node>) -> Seq<Seq<(Seq<char>, Seq<char>)>> {
    ns.map_values(|n: Node| n@)
}

pub open spec fn edge_views(es: Seq<Edge>) -> Seq<Seq<(Seq<char>, Seq<char>)>> {
    es.map_values(|e: Edge| e@)
}

/// A parsed canvas, with everything needed to write it back unchanged.
#[derive(Debug, Clone)]
pub struct Canvas {
    pub nodes: Vec<Node>,
    pub edges: Vec<Edge>,
    /// Top-level keys other than `nodes` and `edges`, kept so that a key this
    /// build never heard of survives a round trip.
    extra: Vec<(String, String)>,
    format: CanvasFormat,
    /// The exact text this was parsed from.
    original: String,
}

impl View for Canvas {
    type V = CanvasModel;

    closed spec fn view(&self) -> CanvasModel {
        CanvasModel {
            nodes: node_views(self.nodes@),
            edges: edge_views(self.edges@),
            extra: pair_views(self.extra@),
            format: self.format,
            original: self.original@,
        }
    }
}

/// Takes a top-level array out of the object's entries.
fn take_array(top: Vec<(String, String)>, field: &str) -> (r: Result<
    (Vec<String>, Vec<(String, String)>),
    CanvasError,
>)
    ensures
        match r {
            Ok((items, rest)) => taken(pair_views(top@), field@) == Some(string_views(items@))
                && pair_views(rest@) == without(pair_views(top@), field@),
            Err(e) => taken(pair_views(top@), field@) is None && (e matches CanvasError::NotAnArray {
                field: f,
            } && f@ == field@),
        },
{
    let ghost pv = pair_views(top@);
    let mut top = top;
    match find_key(&top, field) {
        None => {
            proof {
                assert forall|j: int| 0 <= j < pv.len() implies (#[trigger] pv[j]).0 != field@ by {
                    assert(pv[j].0 == top@[j].0@);
                }
                lemma_absent(pv, field@);
            }
            let none: Vec<String> = Vec::new();
            assert(string_views(none@) =~= Seq::<Seq<char>>::empty());
            Ok((none, top))
        },
        Some(i) => {
            proof {
                assert forall|j: int| 0 <= j < i implies (#[trigger] pv[j]).0 != field@ by {
                    assert(pv[j].0 == top@[j].0@);
                }
                lemma_found(pv, field@, i as int);
            }
            let (_, value) = top.remove(i);
            assert(pair_views(top@) =~= pv.remove(i as int));
            match array_items(value.as_str()) {
                Some(items) => Ok((items, top)),
                None => Err(CanvasError::NotAnArray { field: own(field) }),
            }
        },
    }
}

/// The items that are objects, as nodes, in order.
fn nodes_of(items: &Vec<String>) -> (r: Vec<Node>)
    ensures
        node_views(r@) == objects_of(string_views(items@)),
{
    let ghost sv = string_views(items@);
    let mut out: Vec<Node> = Vec::new();
    let mut i: usize = 0;
    assert(sv.skip(0) =~= sv);
    while i < items.len()
        invariant
            0 <= i <= items@.len(),
            sv == string_views(items@),
            node_views(out@) + objects_of(sv.skip(i as int)) == objects_of(sv),
        decreases items@.len() - i,
    {
        assert(sv.skip(i as int).drop_first() =~= sv.skip(i + 1));
        assert(sv.skip(i as int)[0] == items@[i as int]@);
        match object_entries(items[i].as_str()) {
            Ok(Some(e)) => {
                let ghost before = out@;
                out.push(Node { entries: e });
                assert(node_views(out@) =~= node_views(before).push(pair_views(e@)));
                assert(node_views(out@) + objects_of(sv.skip(i + 1)) =~= node_views(before) + (seq![
                    pair_views(e@),
                ] + objects_of(sv.skip(i + 1))));
            },
            _ => {},
        }
        i = i + 1;
    }
    assert(objects_of(sv.skip(items@.len() as int)) =~= Seq::<Seq<(Seq<char>, Seq<char>)>>::empty());
    assert(node_views(out@) + Seq::<Seq<(Seq<char>, Seq<char>)>>::empty() =~= node_views(out@));
    out
}

/// The items that are objects, as edges, in order.
fn edges_of(items: &Vec<String>) -> (r: Vec<Edge>)
    ensures
        edge_views(r@) == objects_of(string_views(items@)),
{
    let ghost sv = string_views(items@);
    let mut out: Vec<Edge> = Vec::new();
    let mut i: usize = 0;
    assert(sv.skip(0) =~= sv);
    while i < items.len()
        invariant
            0 <= i <= items@.len(),
            sv == string_views(items@),
            edge_views(out@) + objects_of(sv.skip(i as int)) == objects_of(sv),
        decreases items@.len() - i,
    {
        assert(sv.skip(i as int).drop_first() =~= sv.skip(i + 1));
        assert(sv.skip(i as int)[0] == items@[i as int]@);
        match object_entries(items[i].as_str()) {
            Ok(Some(e)) => {
                let ghost before = out@;
                out.push(Edge { entries: e });
                assert(edge_views(out@) =~= edge_views(before).push(pair_views(e@)));
                assert(edge_views(out@) + objects_of(sv.skip(i + 1)) =~= edge_views(before) + (seq![
                    pair_views(e@),
                ] + objects_of(sv.skip(i + 1))));
            },
            _ => {},
        }
        i = i + 1;
    }
    assert(objects_of(sv.skip(items@.len() as int)) =~= Seq::<Seq<(Seq<char>, Seq<char>)>>::empty());
    assert(edge_views(out@) + Seq::<Seq<(Seq<char>, Seq<char>)>>::empty() =~= edge_views(out@));
    out
}

impl Canvas {
    /// Reads a canvas: a JSON object whose `nodes` and `edges`, when present,
    /// are arrays. Items that are not objects are dropped; every other
    /// top-level key is kept, in order.
    pub fn parse(source: &str) -> (r: Result<Canvas, CanvasError>)
        ensures
            match r {
                Ok(c) => canvas_parse(source@) == Ok::<CanvasModel, ParseProblem>(c@),
                Err(e) => canvas_parse(source@) == Err::<CanvasModel, ParseProblem>(problem_of(e)),
            },
            source@.len() == 0 ==> r is Err,
    {
        proof {
            reveal_strlit("nodes");
            reveal_strlit("edges");
        }
        let top = match object_entries(source) {
            Err(m) => return Err(CanvasError::Json(m)),
            Ok(None) => return Err(CanvasError::NotAnObject),
            Ok(Some(t)) => t,
        };
        let (node_items, rest) = match take_array(top, "nodes") {
            Ok(p) => p,
            Err(e) => return Err(e),
        };
        let (edge_items, extra) = match take_array(rest, "edges") {
            Ok(p) => p,
            Err(e) => return Err(e),
        };
        let nodes = nodes_of(&node_items);
        let edges = edges_of(&edge_items);
        Ok(Canvas { nodes, edges, extra, format: CanvasFormat::detect(source), original: own(source) })
    }

    /// A canvas with nothing in it, in Obsidian's format.
    pub fn empty() -> (r: Canvas)
        ensures
            r@.nodes.len() == 0 && r@.edges.len() == 0 && r@.extra.len() == 0,
            r@.format == (CanvasFormat {
                indent: Indent::Tab,
                compact_elements: true,
                trailing_newline: false,
                crlf: false,
            }),
            r@.original.len() == 0,
    {
        let c = Canvas {
            nodes: Vec::new(),
            edges: Vec::new(),
            extra: Vec::new(),
            format: CanvasFormat::obsidian(),
            original: String::new(),
        };
        assert(c@.nodes =~= Seq::<Seq<(Seq<char>, Seq<char>)>>::empty());
        assert(c@.edges =~= Seq::<Seq<(Seq<char>, Seq<char>)>>::empty());
        c
    }

    pub fn format(&self) -> (r: &CanvasFormat)
        ensures
            *r == self@.format,
    {
        &self.format
    }

    /// Where the first node with this id is.
    pub fn node_index(&self, id: &str) -> (r: Option<usize>)
        ensures
            match r {
                Some(i) => i < self@.nodes.len() && string_or_empty(self@.nodes[i as int], "id"@)
                    == id@ && forall|j: int|
                    0 <= j < i ==> string_or_empty(#[trigger] self@.nodes[j], "id"@) != id@,
                None => forall|j: int|
                    0 <= j < self@.nodes.len() ==> string_or_empty(#[trigger] self@.nodes[j], "id"@)
                        != id@,
            },
    {
        let mut i: usize = 0;
        while i < self.nodes.len()
            invariant
                0 <= i <= self.nodes@.len(),
                forall|j: int|
                    0 <= j < i ==> string_or_empty(#[trigger] self@.nodes[j], "id"@) != id@,
            decreases self.nodes@.len() - i,
        {
            let n = self.nodes[i].id();
            assert(self@.nodes[i as int] == self.nodes@[i as int]@);
            if str_eq(n.as_str(), id) {
                return Some(i);
            }
            i = i + 1;
        }
        None
    }

    /// The first node with this id.
    pub fn node(&self, id: &str) -> (r: Option<&Node>)
        ensures
            match r {
                Some(n) => exists|i: int|
                    0 <= i < self@.nodes.len() && self@.nodes[i] == n@ && string_or_empty(n@, "id"@)
                        == id@ && forall|j: int|
                        0 <= j < i ==> string_or_empty(#[trigger] self@.nodes[j], "id"@) != id@,
                None => forall|j: int|
                    0 <= j < self@.nodes.len() ==> string_or_empty(#[trigger] self@.nodes[j], "id"@)
                        != id@,
            },
    {
        match self.node_index(id) {
            Some(i) => {
                assert(self@.nodes[i as int] == self.nodes@[i as int]@);
                Some(&self.nodes[i])
            },
            None => None,
        }
    }

    fn element(&self, e: &Vec<(String, String)>) -> (r: String)
        ensures
            r@ == element_json(self.format, pair_views(e@)),
    {
        let c = compact_text(e);
        if self.format.compact_elements {
            c
        } else {
            pretty(c.as_str())
        }
    }

    fn render(&self) -> (r: String)
        ensures
            r@ == rendered(self@),
    {
        let ghost m = self@;
        let mut ns: Vec<String> = Vec::new();
        let mut i: usize = 0;
        while i < self.nodes.len()
            invariant
                0 <= i <= self.nodes@.len(),
                m == self@,
                string_views(ns@) =~= Seq::new(i as nat, |k: int| element_json(m.format, m.nodes[k])),
            decreases self.nodes@.len() - i,
        {
            let t = self.element(&self.nodes[i].entries);
            assert(m.nodes[i as int] == pair_views(self.nodes@[i as int].entries@));
            let ghost before = ns@;
            ns.push(t);
            assert(string_views(ns@) =~= string_views(before).push(t@));
            i = i + 1;
        }
        let mut es: Vec<String> = Vec::new();
        let mut j: usize = 0;
        while j < self.edges.len()
            invariant
                0 <= j <= self.edges@.len(),
                m == self@,
                string_views(es@) =~= Seq::new(j as nat, |k: int| element_json(m.format, m.edges[k])),
            decreases self.edges@.len() - j,
        {
            let t = self.element(&self.edges[j].entries);
            assert(m.edges[j as int] == pair_views(self.edges@[j as int].entries@));
            let ghost before = es@;
            es.push(t);
            assert(string_views(es@) =~= string_views(before).push(t@));
            j = j + 1;
        }
        let mut xs: Vec<(String, String)> = Vec::new();
        let mut k: usize = 0;
        while k < self.extra.len()
            invariant
                0 <= k <= self.extra@.len(),
                m == self@,
                pair_views(xs@) =~= Seq::new(
                    k as nat,
                    |q: int| (m.extra[q].0, extra_json(m.format, m.extra[q].1)),
                ),
            decreases self.extra@.len() - k,
        {
            let key = own(self.extra[k].0.as_str());
            let value = if self.format.compact_elements {
                own(self.extra[k].1.as_str())
            } else {
                pretty(self.extra[k].1.as_str())
            };
            let ghost before = xs@;
            let ghost pair = (key@, value@);
            xs.push((key, value));
            assert(pair_views(xs@) =~= pair_views(before).push(pair));
            k = k + 1;
        }
        self.format.render(ns.as_slice(), es.as_slice(), xs.as_slice())
    }

    /// Serialises, reproducing the source formatting: when nothing changed,
    /// the original text byte for byte.
    pub fn serialize(&self) -> (r: String)
        ensures
            r@ == serialized(self@),
    {
        let rebuilt = self.render();
        if !self.original.as_str().is_empty() {
            let again = Canvas::render_from(self.original.as_str());
            if str_eq(rebuilt.as_str(), again.as_str()) {
                return own(self.original.as_str());
            }
        }
        rebuilt
    }

    /// Whether writing this back would change any byte.
    pub fn is_unchanged(&self) -> (r: bool)
        ensures
            r == (self@.original.len() > 0 && serialized(self@) == self@.original),
    {
        if self.original.as_str().is_empty() {
            return false;
        }
        let s = self.serialize();
        str_eq(s.as_str(), self.original.as_str())
    }

    /// What a fresh read of `source` renders to.
    fn render_from(source: &str) -> (r: String)
        ensures
            r@ == rendered_from(source@),
    {
        match Canvas::parse(source) {
            Ok(c) => c.render(),
            Err(_) => String::new(),
        }
    }
}

/// A canvas that was read and not edited writes back exactly the text it
/// was read from. Empty text is never read as a canvas (`Canvas::parse`
/// refuses it), so this covers every canvas that was read.
pub proof fn law_an_unedited_canvas_writes_back_its_own_bytes(source: Seq<char>)
    requires
        source.len() > 0,
        canvas_parse(source) is Ok,
    ensures
        serialized(canvas_parse(source)->Ok_0) == source,
{
}

/// Setting a value keeps every key where it was: an existing key is assigned
/// in place, and a new one goes at the end.
pub proof fn law_setting_a_value_keeps_the_key_order(
    e: Seq<(Seq<char>, Seq<char>)>,
    key: Seq<char>,
    value: Seq<char>,
)
    ensures
        lookup(e, key) is Some ==> with_value(e, key, value).len() == e.len() && forall|i: int|
            0 <= i < e.len() ==> (#[trigger] with_value(e, key, value)[i]).0 == e[i].0,
        lookup(e, key) is None ==> with_value(e, key, value) == e.push((key, value)),
        lookup(with_value(e, key, value), key) == Some(value),
    decreases e.len(),
{
    if e.len() > 0 {
        law_setting_a_value_keeps_the_key_order(e.drop_first(), key, value);
        if e[0].0 != key {
            let w = with_value(e.drop_first(), key, value);
            assert((seq![e[0]] + w).drop_first() =~= w);
            if lookup(e, key) is Some {
                assert forall|i: int| 0 <= i < e.len() implies (#[trigger] with_value(
                    e,
                    key,
                    value,
                )[i]).0 == e[i].0 by {
                    if i > 0 {
                        assert(with_value(e, key, value)[i] == w[i - 1]);
                        assert(e.drop_first()[i - 1] == e[i]);
                    }
                }
            } else {
                assert(seq![e[0]] + e.drop_first().push((key, value)) =~= e.push((key, value)));
            }
        }
    }
}

/// Why a drag changed the canvas: how many cards it moved.
pub fn moved_reason(count: usize) -> (r: String)
    ensures
        r@ == "moved "@ + crate::entry::dec_digits(count as nat) + " card(s)"@,
{
    let mut s = own("moved ");
    let d = crate::entry::decimal(count as u64);
    push_str(&mut s, d.as_str());
    push_str(&mut s, " card(s)");
    s
}

} // verus!
