//! JSONCanvas formatting, reproduced rather than normalised.
//!
//! Obsidian writes `.canvas` in a specific shape: tabs, LF, one compact node
//! per line, no trailing newline. The format is detected on read and
//! reproduced on write, as line endings are for markdown, so a canvas that
//! was opened and edited does not come back as a whole-file diff. Turning each
//! node's JSON object into text is `serde_json`'s work; how those texts are
//! laid out in the file is decided here.
use vstd::prelude::*;
use crate::chars::{
    contains_seq, extend, find_from, join_parts, join_with, lemma_contains_iff_found, line_views,
    lines_of, occurs_at, replace, replace_all, replace_from, split_lines, trim_bounds,
};
use crate::text::{chars_of, own, string_of, trim};

verus! {

#[derive(Debug, Clone, Copy, PartialEq, Eq, Structural)]
pub enum Indent {
    Tab,
    Spaces(usize),
}

#[derive(Debug, Clone, Copy, PartialEq, Eq, Structural)]
pub struct CanvasFormat {
    pub indent: Indent,
    /// Whether each array element sits on its own line as compact JSON, as
    /// Obsidian writes it, rather than fully pretty-printed.
    pub compact_elements: bool,
    pub trailing_newline: bool,
    pub crlf: bool,
}

pub open spec fn crlf_seq() -> Seq<char> {
    seq!['\r', '\n']
}

pub open spec fn normalised(s: Seq<char>) -> Seq<char> {
    replace_all(s, crlf_seq(), seq!['\n'])
}

pub open spec fn indented(l: Seq<char>) -> bool {
    l.len() > 0 && (l[0] == '\t' || l[0] == ' ')
}

pub open spec fn leading_spaces(l: Seq<char>) -> nat
    decreases l.len(),
{
    if l.len() > 0 && l[0] == ' ' {
        1 + leading_spaces(l.drop_first())
    } else {
        0
    }
}

/// The indent the first indented line uses; a tab when no line is indented.
pub open spec fn first_indent(ls: Seq<Seq<char>>) -> Indent
    decreases ls.len(),
{
    if ls.len() == 0 {
        Indent::Tab
    } else if indented(ls[0]) {
        if ls[0][0] == '\t' {
            Indent::Tab
        } else {
            Indent::Spaces(leading_spaces(ls[0]) as usize)
        }
    } else {
        first_indent(ls.drop_first())
    }
}

/// A line whose trimmed form is a whole object: an element written compactly.
pub open spec fn compact_line(l: Seq<char>) -> bool {
    let t = trim(l);
    t.len() > 0 && t[0] == '{' && (t.last() == '}' || (t.len() >= 2 && t[t.len() - 2] == '}'
        && t.last() == ','))
}

/// The format a canvas source was written in.
pub open spec fn detected(source: Seq<char>) -> CanvasFormat {
    let n = normalised(source);
    let ls = lines_of(n);
    CanvasFormat {
        indent: first_indent(ls),
        compact_elements: (exists|k: int| 0 <= k < ls.len() && compact_line(#[trigger] ls[k]))
            || !n.contains('{'),
        trailing_newline: source.len() > 0 && source.last() == '\n',
        crlf: contains_seq(source, crlf_seq()),
    }
}

/// One level of indentation.
pub open spec fn unit_text(i: Indent) -> Seq<char> {
    match i {
        Indent::Tab => seq!['\t'],
        Indent::Spaces(n) => Seq::new(n as nat, |k: int| ' '),
    }
}

/// Every `\n` made `\r\n` when the file used CRLF.
pub open spec fn with_endings(f: CanvasFormat, s: Seq<char>) -> Seq<char> {
    if f.crlf {
        replace_all(s, seq!['\n'], crlf_seq())
    } else {
        s
    }
}

/// A multi-line block re-indented so its continuation lines line up.
pub open spec fn indented_block(s: Seq<char>, prefix: Seq<char>) -> Seq<char> {
    let ls = lines_of(s);
    if ls.len() == 0 {
        seq![]
    } else if ls.len() == 1 {
        ls[0]
    } else {
        ls[0] + seq!['\n'] + join_with(
            Seq::new((ls.len() - 1) as nat, |k: int| prefix + ls[k + 1]),
            seq!['\n'],
        )
    }
}

pub open spec fn element_text(f: CanvasFormat, item: Seq<char>) -> Seq<char> {
    let two = unit_text(f.indent) + unit_text(f.indent);
    if f.compact_elements {
        two + item
    } else {
        two + indented_block(item, two)
    }
}

/// An array of already-serialised elements, one per line.
pub open spec fn array_text(f: CanvasFormat, items: Seq<Seq<char>>) -> Seq<char> {
    if items.len() == 0 {
        "[]"@
    } else {
        "[\n"@ + join_with(Seq::new(items.len(), |k: int| element_text(f, items[k])), ",\n"@)
            + "\n"@ + unit_text(f.indent) + "]"@
    }
}

pub open spec fn extra_text(f: CanvasFormat, key: Seq<char>, value: Seq<char>) -> Seq<char> {
    unit_text(f.indent) + "\""@ + key + "\":"@ + (if f.compact_elements {
        value
    } else {
        indented_block(value, unit_text(f.indent))
    })
}

pub open spec fn pair_views(v: Seq<(String, String)>) -> Seq<(Seq<char>, Seq<char>)> {
    v.map_values(|p: (String, String)| (p.0@, p.1@))
}

pub open spec fn string_views(v: Seq<String>) -> Seq<Seq<char>> {
    v.map_values(|s: String| s@)
}

/// The whole file: `nodes`, then `edges`, then every other top-level key in
/// its order; `{}` for a canvas with nothing in it.
pub open spec fn canvas_text(
    f: CanvasFormat,
    nodes: Seq<Seq<char>>,
    edges: Seq<Seq<char>>,
    extra: Seq<(Seq<char>, Seq<char>)>,
) -> Seq<char> {
    let nl: Seq<char> = if f.trailing_newline {
        seq!['\n']
    } else {
        seq![]
    };
    if nodes.len() == 0 && edges.len() == 0 && extra.len() == 0 {
        with_endings(f, "{}"@ + nl)
    } else {
        let parts = seq![
            unit_text(f.indent) + "\"nodes\":"@ + array_text(f, nodes),
            unit_text(f.indent) + "\"edges\":"@ + array_text(f, edges),
        ] + Seq::new(extra.len(), |k: int| extra_text(f, extra[k].0, extra[k].1));
        with_endings(f, "{\n"@ + join_with(parts, ",\n"@) + "\n}"@ + nl)
    }
}

fn first_indent_of(ls: &Vec<Vec<char>>) -> (r: Indent)
    ensures
        r == first_indent(line_views(ls@)),
{
    let mut i: usize = 0;
    assert(line_views(ls@).skip(0) =~= line_views(ls@));
    while i < ls.len()
        invariant
            0 <= i <= ls@.len(),
            first_indent(line_views(ls@)) == first_indent(line_views(ls@).skip(i as int)),
        decreases ls@.len() - i,
    {
        let l = &ls[i];
        assert(line_views(ls@).skip(i as int)[0] == l@);
        if l.len() > 0 && (l[0] == '\t' || l[0] == ' ') {
            if l[0] == '\t' {
                return Indent::Tab;
            }
            let mut n: usize = 0;
            assert(l@.skip(0) =~= l@);
            while n < l.len() && l[n] == ' '
                invariant
                    0 <= n <= l@.len(),
                    leading_spaces(l@) == n + leading_spaces(l@.skip(n as int)),
                decreases l@.len() - n,
            {
                assert(l@.skip(n as int).drop_first() =~= l@.skip(n + 1));
                n = n + 1;
            }
            assert(leading_spaces(l@.skip(n as int)) == 0) by {
                if n < l@.len() {
                    assert(l@.skip(n as int)[0] == l@[n as int]);
                }
            }
            return Indent::Spaces(n);
        }
        assert(line_views(ls@).skip(i as int).drop_first() =~= line_views(ls@).skip(i + 1));
        i = i + 1;
    }
    Indent::Tab
}

fn is_compact_line(l: &[char]) -> (r: bool)
    ensures
        r == compact_line(l@),
{
    let (lo, hi) = trim_bounds(l);
    let ghost t = l@.subrange(lo as int, hi as int);
    if hi == lo {
        return false;
    }
    assert(t[0] == l@[lo as int]);
    assert(t.last() == l@[hi - 1]);
    if hi - lo >= 2 {
        assert(t[t.len() - 2] == l@[hi - 2]);
    }
    l[lo] == '{' && (l[hi - 1] == '}' || (hi - lo >= 2 && l[hi - 2] == '}' && l[hi - 1] == ','))
}

impl CanvasFormat {
    /// What Obsidian writes.
    pub fn obsidian() -> (r: CanvasFormat)
        ensures
            r == (CanvasFormat {
                indent: Indent::Tab,
                compact_elements: true,
                trailing_newline: false,
                crlf: false,
            }),
    {
        CanvasFormat {
            indent: Indent::Tab,
            compact_elements: true,
            trailing_newline: false,
            crlf: false,
        }
    }

    /// Reads the format off a canvas source.
    pub fn detect(source: &str) -> (r: CanvasFormat)
        ensures
            r == detected(source@),
    {
        let s = chars_of(source);
        let p: [char; 2] = ['\r', '\n'];
        let nl1: [char; 1] = ['\n'];
        assert(p@ =~= crlf_seq());
        assert(nl1@ =~= seq!['\n']);
        proof {
            lemma_contains_iff_found(s@, p@);
        }
        let crlf = find_from(s.as_slice(), &p, 0).is_some();
        let n = replace(s.as_slice(), &p, &nl1);
        let ls = split_lines(n.as_slice());
        let indent = first_indent_of(&ls);
        let mut compact = false;
        let mut i: usize = 0;
        while i < ls.len()
            invariant
                0 <= i <= ls@.len(),
                line_views(ls@) == lines_of(n@),
                compact == (exists|k: int| 0 <= k < i && compact_line(#[trigger] line_views(ls@)[k])),
            decreases ls@.len() - i,
        {
            if is_compact_line(ls[i].as_slice()) {
                assert(line_views(ls@)[i as int] == ls@[i as int]@);
                compact = true;
            } else {
                assert(line_views(ls@)[i as int] == ls@[i as int]@);
            }
            i = i + 1;
        }
        let mut brace = false;
        let mut j: usize = 0;
        while j < n.len()
            invariant
                0 <= j <= n@.len(),
                brace == (exists|k: int| 0 <= k < j && n@[k] == '{'),
            decreases n@.len() - j,
        {
            if n[j] == '{' {
                brace = true;
            }
            j = j + 1;
        }
        proof {
            if brace {
                let k = choose|k: int| 0 <= k < n@.len() && n@[k] == '{';
                assert(n@.contains('{'));
            }
        }
        let trailing = s.len() > 0 && s[s.len() - 1] == '\n';
        CanvasFormat { indent, compact_elements: compact || !brace, trailing_newline: trailing, crlf }
    }

    /// One level of indentation, as text.
    pub fn unit(&self) -> (r: Vec<char>)
        ensures
            r@ == unit_text(self.indent),
    {
        match self.indent {
            Indent::Tab => {
                let mut v: Vec<char> = Vec::new();
                v.push('\t');
                assert(v@ =~= seq!['\t']);
                v
            },
            Indent::Spaces(n) => {
                let mut v: Vec<char> = Vec::new();
                let mut i: usize = 0;
                while i < n
                    invariant
                        0 <= i <= n,
                        v@ =~= Seq::new(i as nat, |k: int| ' '),
                    decreases n - i,
                {
                    v.push(' ');
                    i = i + 1;
                }
                v
            },
        }
    }

    /// The text with this file's line endings.
    pub fn apply_endings(&self, s: Vec<char>) -> (r: Vec<char>)
        ensures
            r@ == with_endings(*self, s@),
    {
        if self.crlf {
            let nl1: [char; 1] = ['\n'];
            let p: [char; 2] = ['\r', '\n'];
            assert(p@ =~= crlf_seq());
            assert(nl1@ =~= seq!['\n']);
            replace(s.as_slice(), &nl1, &p)
        } else {
            s
        }
    }

    fn element(&self, item: &str, two: &Vec<char>) -> (r: Vec<char>)
        requires
            two@ == unit_text(self.indent) + unit_text(self.indent),
        ensures
            r@ == element_text(*self, item@),
    {
        let mut out = two.clone();
        assert(out@ == two@);
        let cs = chars_of(item);
        if self.compact_elements {
            extend(&mut out, cs.as_slice());
        } else {
            let b = indent_block(cs.as_slice(), two.as_slice());
            extend(&mut out, b.as_slice());
        }
        out
    }

    fn array(&self, items: &[String], one: &Vec<char>, two: &Vec<char>) -> (r: Vec<char>)
        requires
            one@ == unit_text(self.indent),
            two@ == unit_text(self.indent) + unit_text(self.indent),
        ensures
            r@ == array_text(*self, string_views(items@)),
    {
        proof {
            reveal_strlit("[]");
            reveal_strlit("[\n");
            reveal_strlit(",\n");
            reveal_strlit("\n");
            reveal_strlit("]");
        }
        if items.len() == 0 {
            return chars_of("[]");
        }
        let mut parts: Vec<Vec<char>> = Vec::new();
        let mut i: usize = 0;
        while i < items.len()
            invariant
                0 <= i <= items@.len(),
                two@ == unit_text(self.indent) + unit_text(self.indent),
                line_views(parts@) =~= Seq::new(
                    i as nat,
                    |k: int| element_text(*self, string_views(items@)[k]),
                ),
            decreases items@.len() - i,
        {
            let e = self.element(items[i].as_str(), two);
            let ghost prev = parts@;
            parts.push(e);
            assert(line_views(parts@) =~= line_views(prev).push(e@));
            i = i + 1;
        }
        let sep = chars_of(",\n");
        let body = join_parts(&parts, sep.as_slice());
        let mut out = chars_of("[\n");
        extend(&mut out, body.as_slice());
        out.push('\n');
        extend(&mut out, one.as_slice());
        out.push(']');
        assert(line_views(parts@) =~= Seq::new(
            string_views(items@).len(),
            |k: int| element_text(*self, string_views(items@)[k]),
        ));
        assert(out@ =~= array_text(*self, string_views(items@)));
        out
    }

    /// The canvas file for these nodes, edges and other top-level keys, each
    /// already serialised as JSON in the style the format asks for: compact,
    /// or pretty-printed.
    pub fn render(&self, nodes: &[String], edges: &[String], extra: &[(String, String)]) -> (r:
        String)
        ensures
            r@ == canvas_text(*self, string_views(nodes@), string_views(edges@), pair_views(extra@)),
    {
        proof {
            reveal_strlit("{}");
            reveal_strlit("{\n");
            reveal_strlit(",\n");
            reveal_strlit("\n}");
            reveal_strlit("\"nodes\":");
            reveal_strlit("\"edges\":");
            reveal_strlit("\"");
            reveal_strlit("\":");
        }
        if nodes.len() == 0 && edges.len() == 0 && extra.len() == 0 {
            let mut s = chars_of("{}");
            if self.trailing_newline {
                s.push('\n');
            }
            assert(s@ =~= "{}"@ + (if self.trailing_newline {
                seq!['\n']
            } else {
                Seq::<char>::empty()
            }));
            let e = self.apply_endings(s);
            return string_of(e.as_slice());
        }
        let one = self.unit();
        let mut two = one.clone();
        assert(two@ == one@);
        extend(&mut two, one.as_slice());
        let mut parts: Vec<Vec<char>> = Vec::new();
        let mut first = one.clone();
        assert(first@ == one@);
        extend(&mut first, chars_of("\"nodes\":").as_slice());
        let a = self.array(nodes, &one, &two);
        extend(&mut first, a.as_slice());
        parts.push(first);
        let mut second = one.clone();
        assert(second@ == one@);
        extend(&mut second, chars_of("\"edges\":").as_slice());
        let b = self.array(edges, &one, &two);
        extend(&mut second, b.as_slice());
        parts.push(second);
        let ghost fixed = line_views(parts@);
        let mut i: usize = 0;
        while i < extra.len()
            invariant
                0 <= i <= extra@.len(),
                one@ == unit_text(self.indent),
                line_views(parts@) =~= fixed + Seq::new(
                    i as nat,
                    |k: int| extra_text(*self, pair_views(extra@)[k].0, pair_views(extra@)[k].1),
                ),
            decreases extra@.len() - i,
        {
            let (key, value) = &extra[i];
            let mut p = one.clone();
            assert(p@ == one@);
            extend(&mut p, chars_of("\"").as_slice());
            extend(&mut p, chars_of(key.as_str()).as_slice());
            extend(&mut p, chars_of("\":").as_slice());
            let v = chars_of(value.as_str());
            if self.compact_elements {
                extend(&mut p, v.as_slice());
            } else {
                let blk = indent_block(v.as_slice(), one.as_slice());
                extend(&mut p, blk.as_slice());
            }
            assert(p@ =~= extra_text(*self, pair_views(extra@)[i as int].0, pair_views(extra@)[i as int].1));
            let ghost prev = parts@;
            let ghost pv = p@;
            parts.push(p);
            assert(line_views(parts@) =~= line_views(prev).push(pv));
            i = i + 1;
        }
        let sep = chars_of(",\n");
        let body = join_parts(&parts, sep.as_slice());
        let mut out = chars_of("{\n");
        extend(&mut out, body.as_slice());
        extend(&mut out, chars_of("\n}").as_slice());
        if self.trailing_newline {
            out.push('\n');
        }
        assert(line_views(parts@) =~= seq![
            unit_text(self.indent) + "\"nodes\":"@ + array_text(*self, string_views(nodes@)),
            unit_text(self.indent) + "\"edges\":"@ + array_text(*self, string_views(edges@)),
        ] + Seq::new(
            pair_views(extra@).len(),
            |k: int| extra_text(*self, pair_views(extra@)[k].0, pair_views(extra@)[k].1),
        ));
        assert(out@ =~= "{\n"@ + join_with(line_views(parts@), ",\n"@) + "\n}"@ + (
        if self.trailing_newline {
            seq!['\n']
        } else {
            Seq::<char>::empty()
        }));
        assert(string_views(nodes@).len() == nodes@.len());
        assert(string_views(edges@).len() == edges@.len());
        assert(pair_views(extra@).len() == extra@.len());
        let e = self.apply_endings(out);
        string_of(e.as_slice())
    }
}

/// Re-indent a multi-line block so its continuation lines line up.
pub fn indent_block(s: &[char], prefix: &[char]) -> (r: Vec<char>)
    ensures
        r@ == indented_block(s@, prefix@),
{
    let ls = split_lines(s);
    if ls.len() == 0 {
        return Vec::new();
    }
    let mut out = ls[0].clone();
    assert(out@ == line_views(ls@)[0]);
    if ls.len() == 1 {
        return out;
    }
    let mut rest: Vec<Vec<char>> = Vec::new();
    let mut i: usize = 1;
    while i < ls.len()
        invariant
            1 <= i <= ls@.len(),
            line_views(rest@) =~= Seq::new(
                (i - 1) as nat,
                |k: int| prefix@ + line_views(ls@)[k + 1],
            ),
        decreases ls@.len() - i,
    {
        let mut l: Vec<char> = Vec::new();
        extend(&mut l, prefix);
        extend(&mut l, ls[i].as_slice());
        assert(l@ =~= prefix@ + line_views(ls@)[i as int]);
        let ghost prev = rest@;
        let ghost lv = l@;
        rest.push(l);
        assert(line_views(rest@) =~= line_views(prev).push(lv));
        i = i + 1;
    }
    out.push('\n');
    let nl1: [char; 1] = ['\n'];
    assert(nl1@ =~= seq!['\n']);
    let body = join_parts(&rest, &nl1);
    extend(&mut out, body.as_slice());
    out
}

/// The node types JSONCanvas defines.
#[derive(Debug, Clone, Copy, PartialEq, Eq, Structural)]
pub enum NodeKind {
    Text,
    File,
    Link,
    Group,
    /// A type this build does not know, preserved untouched.
    Unknown,
}

pub open spec fn node_kind_name(k: NodeKind) -> Seq<char> {
    match k {
        NodeKind::Text => "text"@,
        NodeKind::File => "file"@,
        NodeKind::Link => "link"@,
        NodeKind::Group => "group"@,
        NodeKind::Unknown => "unknown"@,
    }
}

impl NodeKind {
    /// The kind's name as the wire carries it, lowercase.
    pub fn name(self) -> (r: &'static str)
        ensures
            r@ == node_kind_name(self),
    {
        match self {
            NodeKind::Text => "text",
            NodeKind::File => "file",
            NodeKind::Link => "link",
            NodeKind::Group => "group",
            NodeKind::Unknown => "unknown",
        }
    }

    pub fn from_str(s: &str) -> (r: NodeKind)
        ensures
            r == (if s@ == "text"@ {
                NodeKind::Text
            } else if s@ == "file"@ {
                NodeKind::File
            } else if s@ == "link"@ {
                NodeKind::Link
            } else if s@ == "group"@ {
                NodeKind::Group
            } else {
                NodeKind::Unknown
            }),
    {
        if crate::text::str_eq(s, "text") {
            NodeKind::Text
        } else if crate::text::str_eq(s, "file") {
            NodeKind::File
        } else if crate::text::str_eq(s, "link") {
            NodeKind::Link
        } else if crate::text::str_eq(s, "group") {
            NodeKind::Group
        } else {
            NodeKind::Unknown
        }
    }
}

/// ARC's executable node types, kept under the `arc` key of a text node.
#[derive(Debug, Clone, Copy, PartialEq, Eq, Structural)]
pub enum ArcKind {
    Prompt,
    Query,
    Transform,
}

pub open spec fn arc_kind_name(k: ArcKind) -> Seq<char> {
    match k {
        ArcKind::Prompt => "prompt"@,
        ArcKind::Query => "query"@,
        ArcKind::Transform => "transform"@,
    }
}

impl ArcKind {
    pub fn as_str(self) -> (r: &'static str)
        ensures
            r@ == arc_kind_name(self),
    {
        match self {
            ArcKind::Prompt => "prompt",
            ArcKind::Query => "query",
            ArcKind::Transform => "transform",
        }
    }

    pub fn from_str(s: &str) -> (r: Option<ArcKind>)
        ensures
            r == (if s@ == "prompt"@ {
                Some(ArcKind::Prompt)
            } else if s@ == "query"@ {
                Some(ArcKind::Query)
            } else if s@ == "transform"@ {
                Some(ArcKind::Transform)
            } else {
                None
            }),
    {
        if crate::text::str_eq(s, "prompt") {
            Some(ArcKind::Prompt)
        } else if crate::text::str_eq(s, "query") {
            Some(ArcKind::Query)
        } else if crate::text::str_eq(s, "transform") {
            Some(ArcKind::Transform)
        } else {
            None
        }
    }
}

/// A kind's name reads back as the same kind.
pub proof fn law_arc_kind_names_read_back(k: ArcKind)
    ensures
        (if arc_kind_name(k) == "prompt"@ {
            Some(ArcKind::Prompt)
        } else if arc_kind_name(k) == "query"@ {
            Some(ArcKind::Query)
        } else if arc_kind_name(k) == "transform"@ {
            Some(ArcKind::Transform)
        } else {
            None
        }) == Some(k),
{
    reveal_strlit("prompt");
    reveal_strlit("query");
    reveal_strlit("transform");
    assert("prompt"@ != "query"@) by {
        assert("prompt"@[0] != "query"@[0]);
    }
    assert("prompt"@ != "transform"@) by {
        assert("prompt"@[0] != "transform"@[0]);
    }
    assert("query"@ != "transform"@) by {
        assert("query"@[0] != "transform"@[0]);
    }
}

/// Why a canvas could not be read.
#[derive(Debug, Clone, PartialEq, Eq)]
pub enum CanvasError {
    /// Not valid JSON, with the parser's words.
    Json(String),
    NotAnObject,
    NotAnArray { field: String },
    NodeWithoutId,
}

pub open spec fn canvas_error_text(e: CanvasError) -> Seq<char> {
    match e {
        CanvasError::Json(m) => "not valid JSON: "@ + m@,
        CanvasError::NotAnObject => "not a JSON object at the top level"@,
        CanvasError::NotAnArray { field } => field@ + " must be an array"@,
        CanvasError::NodeWithoutId => "a node has no id"@,
    }
}

impl CanvasError {
    /// What `Display` shows.
    pub fn message(&self) -> (r: String)
        ensures
            r@ == canvas_error_text(*self),
    {
        match self {
            CanvasError::Json(m) => {
                let mut s = own("not valid JSON: ");
                crate::text::push_str(&mut s, m.as_str());
                s
            },
            CanvasError::NotAnObject => own("not a JSON object at the top level"),
            CanvasError::NotAnArray { field } => {
                let mut s = field.clone();
                crate::text::push_str(&mut s, " must be an array");
                s
            },
            CanvasError::NodeWithoutId => own("a node has no id"),
        }
    }
}

/// Every line feed in the text ends a CRLF pair.
pub open spec fn no_bare_lf(x: Seq<char>) -> bool {
    forall|i: int| 0 <= i < x.len() && #[trigger] x[i] == '\n' ==> i > 0 && x[i - 1] == '\r'
}

proof fn lemma_crlf_from(s: Seq<char>, i: int)
    requires
        0 <= i,
    ensures
        no_bare_lf(replace_from(s, seq!['\n'], crlf_seq(), i)),
        replace_from(s, seq!['\n'], crlf_seq(), i).len() > 0 ==> replace_from(
            s,
            seq!['\n'],
            crlf_seq(),
            i,
        )[0] != '\n',
    decreases s.len() - i,
{
    let x = replace_from(s, seq!['\n'], crlf_seq(), i);
    if i >= s.len() {
        assert(x =~= Seq::<char>::empty());
    } else {
        lemma_crlf_from(s, i + 1);
        let rest = replace_from(s, seq!['\n'], crlf_seq(), i + 1);
        if occurs_at(s, seq!['\n'], i) {
            assert(x =~= crlf_seq() + rest);
            assert forall|k: int| 0 <= k < x.len() && #[trigger] x[k] == '\n' implies k > 0 && x[k
                - 1] == '\r' by {
                if k >= 2 {
                    assert(x[k] == rest[k - 2]);
                    if k >= 3 {
                        assert(x[k - 1] == rest[k - 3]);
                    }
                }
            }
        } else {
            assert(s.subrange(i, i + 1) =~= seq![s[i]]);
            assert(x =~= seq![s[i]] + rest);
            assert forall|k: int| 0 <= k < x.len() && #[trigger] x[k] == '\n' implies k > 0 && x[k
                - 1] == '\r' by {
                if k >= 1 {
                    assert(x[k] == rest[k - 1]);
                    if k >= 2 {
                        assert(x[k - 1] == rest[k - 2]);
                    }
                }
            }
        }
    }
}

/// A canvas written in CRLF stays CRLF, edited or not: every line feed of
/// the file it writes ends a CRLF pair, including those inside pretty-printed
/// nodes.
pub proof fn law_a_crlf_canvas_writes_only_crlf_line_breaks(
    f: CanvasFormat,
    nodes: Seq<Seq<char>>,
    edges: Seq<Seq<char>>,
    extra: Seq<(Seq<char>, Seq<char>)>,
)
    requires
        f.crlf,
    ensures
        no_bare_lf(canvas_text(f, nodes, edges, extra)),
{
    let nl: Seq<char> = if f.trailing_newline {
        seq!['\n']
    } else {
        seq![]
    };
    if nodes.len() == 0 && edges.len() == 0 && extra.len() == 0 {
        lemma_crlf_from("{}"@ + nl, 0);
    } else {
        let parts = seq![
            unit_text(f.indent) + "\"nodes\":"@ + array_text(f, nodes),
            unit_text(f.indent) + "\"edges\":"@ + array_text(f, edges),
        ] + Seq::new(extra.len(), |k: int| extra_text(f, extra[k].0, extra[k].1));
        lemma_crlf_from("{\n"@ + join_with(parts, ",\n"@) + "\n}"@ + nl, 0);
    }
}

} // verus!
