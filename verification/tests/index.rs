use arc_labs::graph::graph_from;
use arc_labs::index::{
    first_sources, indexable, note_rows, progress_due, quick_open_terms, schema_step, BuildStats, IndexError,
    NoteRef, Outcome, SCHEMA_VERSION,
};
use arc_labs::path::VaultPath;
use arc_labs::render::{Heading, RenderedNote};
use arc_labs::tree::TreeEntry;
use arc_labs::wikilink::WikiLink;

fn note(path: &str, title: &str, is_canvas: bool) -> NoteRef {
    NoteRef { path: path.to_string(), title: title.to_string(), is_canvas }
}

fn link(from: &str, to: &str) -> (String, String) {
    (from.to_string(), to.to_string())
}

fn wl(target: &str, alias: Option<&str>, embed: bool) -> WikiLink {
    WikiLink { target: target.to_string(), anchor: None, alias: alias.map(str::to_string), embed }
}

#[test]
fn the_graph_draws_each_resolved_pair_once() {
    // a links to b twice, b links back; the link to nowhere never resolved,
    // so it is not among the rows at all.
    let notes = vec![note("a.md", "A", false), note("b.md", "B", false), note("island.md", "Island", false)];
    let links = vec![link("a.md", "b.md"), link("a.md", "b.md"), link("b.md", "a.md")];
    let g = graph_from(notes, &links);
    assert_eq!(g.nodes.len(), 3);
    assert_eq!(g.edges.len(), 2, "{:?}", g.edges);
    assert_eq!((g.edges[0].source, g.edges[0].target), (0, 1));
    assert_eq!((g.edges[1].source, g.edges[1].target), (1, 0));
    let island = g.nodes.iter().find(|n| n.path == "island.md").unwrap();
    assert_eq!(island.degree, 0);
    let a = g.nodes.iter().find(|n| n.path == "a.md").unwrap();
    assert_eq!(a.degree, 2);
    assert_eq!(g.nodes[2].id, 2);
    assert_eq!(g.nodes[1].title, "B");
}

#[test]
fn a_note_linking_to_itself_draws_no_loop() {
    let g = graph_from(vec![note("self.md", "Self", false)], &vec![link("self.md", "self.md")]);
    assert!(g.edges.is_empty());
    assert_eq!(g.nodes[0].degree, 0);
}

#[test]
fn a_link_to_a_path_that_is_not_a_node_draws_nothing() {
    let g = graph_from(vec![note("a.md", "A", false)], &vec![link("a.md", "gone.md"), link("gone.md", "a.md")]);
    assert!(g.edges.is_empty());
}

#[test]
fn degrees_add_up_to_twice_the_edges() {
    let notes = vec![
        note("a.md", "A", false),
        note("b.md", "B", false),
        note("c.md", "C", false),
        note("board.canvas", "board", true),
    ];
    let links = vec![link("a.md", "b.md"), link("b.md", "c.md"), link("c.md", "a.md"), link("a.md", "c.md")];
    let g = graph_from(notes, &links);
    let sum: usize = g.nodes.iter().map(|n| n.degree).sum();
    assert_eq!(sum, 2 * g.edges.len());
    assert_eq!(g.edges.len(), 4);
    assert!(g.nodes[3].is_canvas);
}

#[test]
fn each_outcome_is_counted_once() {
    let mut stats = BuildStats::default();
    stats.record("a.md", Ok(Outcome::Indexed { links: 3, tags: 2, headings: 1, is_canvas: false }));
    stats.record("board.canvas", Ok(Outcome::Indexed { links: 0, tags: 0, headings: 0, is_canvas: true }));
    stats.record("b.md", Ok(Outcome::Unchanged { is_canvas: false }));
    stats.record("bad.md", Err("not UTF-8".to_string()));
    assert_eq!(stats.notes, 2);
    assert_eq!(stats.canvases, 1);
    assert_eq!(stats.links, 3);
    assert_eq!(stats.tags, 2);
    assert_eq!(stats.headings, 1);
    assert_eq!(stats.skipped_unchanged, 1);
    assert_eq!(stats.failed, vec![("bad.md".to_string(), "not UTF-8".to_string())]);
}

#[test]
fn progress_is_reported_every_64_files_and_at_the_end() {
    assert!(progress_due(0, 200));
    assert!(!progress_due(1, 200));
    assert!(progress_due(64, 200));
    assert!(!progress_due(198, 200));
    assert!(progress_due(199, 200));
    let reports: Vec<usize> = (0..200).filter(|&i| progress_due(i, 200)).map(|i| i + 1).collect();
    assert_eq!(reports.last(), Some(&200));
}

#[test]
fn only_notes_and_canvases_are_indexed() {
    let entry = |p: &str, is_dir: bool| TreeEntry {
        path: VaultPath::new(p).unwrap(),
        name: p.to_string(),
        is_dir,
        parent: None,
        size: 0,
    };
    assert!(indexable(&entry("a.md", false)));
    assert!(indexable(&entry("A.MD", false)));
    assert!(indexable(&entry("board.canvas", false)));
    assert!(!indexable(&entry("image.png", false)));
    assert!(!indexable(&entry("notes.md", true)));
}

#[test]
fn a_note_contributes_its_links_embeds_tags_and_headings() {
    let mut r = RenderedNote::empty();
    r.links = vec![wl("B", None, false), wl("Target", Some("the target"), false)];
    r.embeds = vec![wl(" Pic ", None, true)];
    r.tags = vec!["Rust".to_string(), "other".to_string()];
    r.headings = vec![
        Heading { level: 1, text: "Alpha".to_string(), line: 1 },
        Heading { level: 2, text: "Sub".to_string(), line: 5 },
    ];
    let rows = note_rows(&r);
    assert_eq!(rows.links.len(), 3);
    assert_eq!(rows.links[0].target, "B");
    assert_eq!(rows.links[0].target_folded, "b");
    assert_eq!(rows.links[1].alias.as_deref(), Some("the target"));
    assert!(!rows.links[1].is_embed);
    assert_eq!(rows.links[2].target_folded, "pic");
    assert!(rows.links[2].is_embed);
    assert_eq!(rows.tags[0].name, "Rust");
    assert_eq!(rows.tags[0].name_folded, "rust");
    assert_eq!(rows.blocks[1].text_folded, "sub");
    assert_eq!(rows.blocks[1].line, 5);
    assert_eq!(rows.outcome(), Outcome::Indexed { links: 3, tags: 2, headings: 2, is_canvas: false });
}

#[test]
fn a_schema_from_another_build_is_refused() {
    assert_eq!(schema_step(None), Ok(true));
    assert_eq!(schema_step(Some(SCHEMA_VERSION)), Ok(false));
    let e = schema_step(Some(99)).unwrap_err();
    assert_eq!(e, IndexError::SchemaMismatch { found: 99, expected: 3 });
    assert_eq!(e.message(), "index is at schema version 99, this build expects 3");
}

#[test]
fn index_errors_read_as_sentences() {
    assert_eq!(IndexError::Sqlite("no such table: notes".to_string()).message(), "sqlite: no such table: notes");
    assert_eq!(
        IndexError::SchemaMismatch { found: -1, expected: 3 }.message(),
        "index is at schema version -1, this build expects 3"
    );
    assert_eq!(
        IndexError::Io { path: "/v/.arc".to_string(), reason: "permission denied".to_string() }.message(),
        "io error at /v/.arc: permission denied"
    );
}

#[test]
fn quick_open_folds_what_was_typed() {
    assert_eq!(quick_open_terms("  Meeting "), Some(("%meeting%".to_string(), "meeting".to_string())));
    assert_eq!(quick_open_terms("   "), None);
    assert_eq!(quick_open_terms(""), None);
}

#[test]
fn an_unresolved_target_shows_its_first_five_sources() {
    assert_eq!(first_sources("a.md"), vec!["a.md".to_string()]);
    assert_eq!(first_sources("a.md\nb.md\r\nc.md\n"), vec!["a.md", "b.md", "c.md"]);
    assert_eq!(first_sources("1\n2\n3\n4\n5\n6\n7"), vec!["1", "2", "3", "4", "5"]);
    assert!(first_sources("").is_empty());
}
