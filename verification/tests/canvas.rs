use arc_labs::canvas::{indent_block, ArcKind, CanvasError, CanvasFormat, Indent, NodeKind};
use arc_labs::canvas_file::Canvas;

#[test]
fn detects_obsidians_shape() {
    let src = "{\n\t\"nodes\":[\n\t\t{\"id\":\"a\"}\n\t],\n\t\"edges\":[]\n}";
    let f = CanvasFormat::detect(src);
    assert_eq!(f, CanvasFormat::obsidian());
}

#[test]
fn detects_a_pretty_printed_canvas_written_by_something_else() {
    let src = "{\n  \"nodes\": [\n    {\n      \"id\": \"a\"\n    }\n  ],\n  \"edges\": []\n}\n";
    let f = CanvasFormat::detect(src);
    assert_eq!(f.indent, Indent::Spaces(2));
    assert!(!f.compact_elements);
    assert!(f.trailing_newline);
}

#[test]
fn detects_crlf() {
    let src = "{\r\n\t\"nodes\":[],\r\n\t\"edges\":[]\r\n}";
    assert!(CanvasFormat::detect(src).crlf);
}

#[test]
fn an_empty_canvas_is_assumed_to_be_obsidians() {
    let f = CanvasFormat::detect("{}");
    assert!(f.compact_elements);
    assert_eq!(f.indent, Indent::Tab);
    assert!(!f.trailing_newline && !f.crlf);
}

#[test]
fn obsidians_layout_is_reproduced() {
    let f = CanvasFormat::obsidian();
    let nodes = vec!["{\"id\":\"a\",\"x\":1}".to_string()];
    let out = f.render(&nodes, &[], &[]);
    assert_eq!(out, "{\n\t\"nodes\":[\n\t\t{\"id\":\"a\",\"x\":1}\n\t],\n\t\"edges\":[]\n}");
    assert_eq!(f.render(&[], &[], &[]), "{}");
}

#[test]
fn a_crlf_canvas_with_a_trailing_newline_keeps_both() {
    let f = CanvasFormat { indent: Indent::Tab, compact_elements: true, trailing_newline: true, crlf: true };
    assert_eq!(
        f.render(&[], &[], &[]),
        "{}\r\n"
    );
    let out = f.render(&[], &["{\"id\":\"e\"}".to_string()], &[("extra".to_string(), "1".to_string())]);
    assert_eq!(
        out,
        "{\r\n\t\"nodes\":[],\r\n\t\"edges\":[\r\n\t\t{\"id\":\"e\"}\r\n\t],\r\n\t\"extra\":1\r\n}\r\n"
    );
}

#[test]
fn pretty_elements_are_reindented() {
    let f = CanvasFormat { indent: Indent::Spaces(2), compact_elements: false, trailing_newline: true, crlf: false };
    let node = "{\n  \"id\": \"a\"\n}".to_string();
    let out = f.render(&[node], &[], &[]);
    assert_eq!(out, "{\n  \"nodes\":[\n    {\n      \"id\": \"a\"\n    }\n  ],\n  \"edges\":[]\n}\n");
    assert_eq!(indent_block(&['a', '\n', 'b'], &['-']), vec!['a', '\n', '-', 'b']);
}

#[test]
fn node_kinds_are_read_by_name() {
    assert_eq!(NodeKind::from_str("text"), NodeKind::Text);
    assert_eq!(NodeKind::from_str("group"), NodeKind::Group);
    assert_eq!(NodeKind::from_str("Text"), NodeKind::Unknown);
    for k in [ArcKind::Prompt, ArcKind::Query, ArcKind::Transform] {
        assert_eq!(ArcKind::from_str(k.as_str()), Some(k));
    }
    assert_eq!(ArcKind::from_str("prompts"), None);
}

#[test]
fn canvas_errors_read_as_words() {
    assert_eq!(CanvasError::NotAnArray { field: "nodes".into() }.message(), "nodes must be an array");
    assert_eq!(CanvasError::Json("eof".into()).message(), "not valid JSON: eof");
    assert_eq!(CanvasError::NodeWithoutId.message(), "a node has no id");
}

const REAL: &str = "{\n\t\"nodes\":[\n\t\t{\"id\":\"75a4f708ea95a139\",\"x\":-105,\"y\":-1503,\"width\":400,\"height\":400,\"type\":\"file\",\"file\":\"Notes/Alpha.md\"},\n\t\t{\"id\":\"d9a077ef1fb364da\",\"type\":\"file\",\"file\":\"Notes/Beta.md\",\"x\":172,\"y\":619,\"width\":400,\"height\":400}\n\t],\n\t\"edges\":[\n\t\t{\"id\":\"2c1b308d9c0be4fd\",\"fromNode\":\"d9a077ef1fb364da\",\"fromSide\":\"bottom\",\"toNode\":\"75a4f708ea95a139\",\"toSide\":\"top\"}\n\t]\n}";

fn num(text: Option<String>) -> f64 {
    text.and_then(|t| t.parse::<f64>().ok()).unwrap_or(0.0)
}

#[test]
fn round_trips_a_real_canvas_byte_for_byte() {
    let c = Canvas::parse(REAL).unwrap();
    assert_eq!(c.serialize(), REAL);
    assert!(c.is_unchanged());
}

#[test]
fn per_node_key_order_survives() {
    let c = Canvas::parse(REAL).unwrap();
    let first = c.nodes[0].keys();
    let second = c.nodes[1].keys();

    assert_eq!(first, ["id", "x", "y", "width", "height", "type", "file"]);
    assert_eq!(second, ["id", "type", "file", "x", "y", "width", "height"]);
    assert_ne!(first, second, "the two nodes really do differ; that is the point");
}

#[test]
fn typed_accessors_read_what_is_there() {
    let c = Canvas::parse(REAL).unwrap();
    let n = &c.nodes[0];
    assert_eq!(n.id(), "75a4f708ea95a139");
    assert_eq!(n.kind(), NodeKind::File);
    assert_eq!(n.file().as_deref(), Some("Notes/Alpha.md"));
    assert_eq!(
        (num(n.value("x")), num(n.value("y")), num(n.value("width")), num(n.value("height"))),
        (-105.0, -1503.0, 400.0, 400.0)
    );

    let e = &c.edges[0];
    assert_eq!(e.from_node(), "d9a077ef1fb364da");
    assert_eq!(e.to_side().as_deref(), Some("top"));
}

#[test]
fn moving_a_node_keeps_its_key_order_and_touches_no_other() {
    let mut c = Canvas::parse(REAL).unwrap();
    let i = c.node_index("75a4f708ea95a139").unwrap();
    c.nodes[i].set_value("x", "40".to_string());
    c.nodes[i].set_value("y", "-20".to_string());

    let out = c.serialize();
    assert!(out.contains("{\"id\":\"75a4f708ea95a139\",\"x\":40,\"y\":-20,\"width\":400"));
    assert!(out.contains("{\"id\":\"d9a077ef1fb364da\",\"type\":\"file\""));
    assert!(!c.is_unchanged());
}

#[test]
fn unknown_node_types_and_unknown_keys_are_preserved() {
    let src = "{\n\t\"nodes\":[\n\t\t{\"id\":\"a\",\"type\":\"futuretype\",\"someNewKey\":{\"nested\":true},\"x\":0,\"y\":0,\"width\":10,\"height\":10}\n\t],\n\t\"edges\":[],\n\t\"metadata\":{\"version\":2}\n}";
    let c = Canvas::parse(src).unwrap();
    assert_eq!(c.nodes[0].kind(), NodeKind::Unknown);
    assert_eq!(c.serialize(), src);
}

#[test]
fn arc_node_types_are_text_nodes_with_a_metadata_key() {
    let src = "{\n\t\"nodes\":[\n\t\t{\"id\":\"p1\",\"type\":\"text\",\"text\":\"Summarise {{note}}\",\"x\":0,\"y\":0,\"width\":300,\"height\":200,\"arc\":{\"kind\":\"prompt\",\"model\":\"qwen3.5:0.8b\"}}\n\t],\n\t\"edges\":[]\n}";
    let c = Canvas::parse(src).unwrap();

    assert_eq!(c.nodes[0].kind(), NodeKind::Text, "must be a text node to Obsidian");
    assert_eq!(c.nodes[0].arc_kind(), Some(ArcKind::Prompt));
    assert_eq!(c.serialize(), src);
}

#[test]
fn an_empty_canvas_round_trips() {
    for src in ["{}", "{\n\t\"nodes\":[],\n\t\"edges\":[]\n}"] {
        let c = Canvas::parse(src).unwrap();
        assert_eq!(c.serialize(), src, "failed for {src:?}");
    }
}

#[test]
fn malformed_input_is_an_error_not_a_panic() {
    assert!(matches!(Canvas::parse("not json"), Err(CanvasError::Json(_))));
    assert!(matches!(Canvas::parse("[1,2,3]"), Err(CanvasError::NotAnObject)));
    assert!(matches!(
        Canvas::parse("{\"nodes\":\"nope\"}"),
        Err(CanvasError::NotAnArray { field }) if field == "nodes"
    ));
}

#[test]
fn a_foreign_format_round_trips_unchanged() {
    let sources = [
        "{\n\t\"nodes\":[\n\t\t{\"id\":\"a\",\"x\":1}\n\t],\n\t\"edges\":[]\n}",
        "{\n\t\"nodes\":[],\n\t\"edges\":[]\n}\n",
        "{\r\n\t\"nodes\":[],\r\n\t\"edges\":[]\r\n}",
        "{}",
    ];
    for src in sources {
        let c = Canvas::parse(src).unwrap();
        assert_eq!(c.serialize(), src, "round trip changed bytes for {src:?}");
        assert!(c.is_unchanged(), "reported changed for {src:?}");
    }
}

#[test]
fn an_edited_canvas_keeps_the_files_own_line_endings() {
    let src = "{\r\n\t\"nodes\":[\r\n\t\t{\"id\":\"a\",\"x\":1,\"y\":2}\r\n\t],\r\n\t\"edges\":[]\r\n}\r\n";
    let mut c = Canvas::parse(src).unwrap();
    let i = c.node_index("a").unwrap();
    c.nodes[i].set_value("x", "9".to_string());
    c.nodes[i].set_value("y", "9".to_string());

    let out = c.serialize();
    assert!(out.contains("\r\n"), "CRLF should survive an edit");
    assert!(out.ends_with("\r\n"), "the trailing newline should survive");
    assert!(out.contains("\"x\":9,\"y\":9"));
}

#[test]
fn a_pretty_printed_canvas_round_trips_and_an_edit_stays_pretty() {
    let src = "{\n  \"nodes\": [\n    {\n      \"id\": \"a\",\n      \"x\": 1\n    }\n  ],\n  \"edges\": []\n}\n";
    let c = Canvas::parse(src).unwrap();
    assert_eq!(c.serialize(), src);
    let mut c = c;
    c.nodes[0].set_text("hello \"there\"");
    let out = c.serialize();
    assert!(out.contains("\"text\": \"hello \\\"there\\\"\""), "{out}");
    assert_eq!(c.nodes[0].text().as_deref(), Some("hello \"there\""));
}

#[test]
fn a_new_key_goes_at_the_end_and_a_missing_node_is_none() {
    let mut c = Canvas::parse(REAL).unwrap();
    c.nodes[1].set_value("color", "\"4\"".to_string());
    assert_eq!(c.nodes[1].keys().last().map(String::as_str), Some("color"));
    assert_eq!(c.nodes[1].color().as_deref(), Some("4"));
    assert!(c.node("nope").is_none());
    assert_eq!(c.node("d9a077ef1fb364da").unwrap().file().as_deref(), Some("Notes/Beta.md"));
    let empty = Canvas::empty();
    assert_eq!(empty.serialize(), "{}");
    assert!(!empty.is_unchanged());
}

#[test]
fn a_crlf_canvas_never_writes_a_bare_line_feed() {
    let src = "{\r\n  \"nodes\": [\r\n    {\r\n      \"id\": \"a\"\r\n    }\r\n  ],\r\n  \"edges\": []\r\n}";
    let mut c = Canvas::parse(src).unwrap();
    assert_eq!(c.serialize(), src);
    c.nodes[0].set_text("two\nlines");
    let out = c.serialize();
    let b = out.as_bytes();
    for (i, &x) in b.iter().enumerate() {
        if x == b'\n' {
            assert!(i > 0 && b[i - 1] == b'\r', "bare LF at {i} in {out:?}");
        }
    }
}

#[test]
fn text_with_quotes_and_control_characters_is_written_escaped() {
    let src = "{\n\t\"nodes\":[\n\t\t{\"id\":\"a\",\"type\":\"text\",\"text\":\"x\"}\n\t],\n\t\"edges\":[]\n}";
    let mut c = Canvas::parse(src).unwrap();
    c.nodes[0].set_text("say \"hi\"\\\n\tend\u{1}");
    let out = c.serialize();
    assert!(out.contains(r#""text":"say \"hi\"\\\n\tend\u0001""#));
    assert_eq!(c.nodes[0].text().as_deref(), Some("say \"hi\"\\\n\tend\u{1}"));
}
