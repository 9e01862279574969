use arc_labs::error::{Error, PathProblem};
use arc_labs::fidelity::{LineEnding, NoteText};
use arc_labs::frontmatter::split;
use arc_labs::path::VaultPath;
use arc_labs::wikilink::{scan, Item, WikiLink};
use arc_labs::seam::MockLlm;

fn links(text: &str) -> Vec<WikiLink> {
    scan(text)
        .into_iter()
        .filter_map(|f| match f.item {
            Item::Link(l) => Some(l),
            _ => None,
        })
        .collect()
}

fn tags(text: &str) -> Vec<String> {
    scan(text)
        .into_iter()
        .filter_map(|f| match f.item {
            Item::Tag(t) => Some(t),
            _ => None,
        })
        .collect()
}

// ── error ───────────────────────────────────────────────────────────────────

#[test]
fn public_form_never_leaks_a_host_path() {
    let secret = r"C:\Users\misho\.ssh\id_ed25519".to_string();
    let errors = [
        Error::PathEscapesVault(secret.clone()),
        Error::VaultRootMissing(secret.clone()),
        Error::VaultRootNotDirectory(secret.clone()),
        Error::Config { path: secret.clone(), reason: "bad key".into() },
        Error::io(&secret, "permission denied"),
    ];
    for e in errors {
        let public = e.public();
        assert!(
            !public.contains("misho") && !public.contains("id_ed25519"),
            "public() leaked a host path: {public}"
        );
        assert!(e.message().contains("id_ed25519") || matches!(e, Error::Io { .. }));
    }
}

#[test]
fn public_messages_name_what_went_wrong() {
    assert_eq!(Error::NoteNotFound("a.md".into()).public(), "no such note: a.md");
    assert_eq!(Error::AlreadyExists("a.md".into()).public(), "already exists: a.md");
    assert_eq!(Error::io("/x", "permission denied").public(), "io error: permission denied");
    assert_eq!(
        Error::NotUtf8 { path: "b.md".into() }.message(),
        "b.md is not valid UTF-8; ARC-LABS vaults are UTF-8 only"
    );
}

// ── fidelity ────────────────────────────────────────────────────────────────

#[test]
fn unchanged_content_reencodes_to_identical_bytes() {
    let cases: &[&[u8]] = &[
        b"# Title\r\nbody\r\n",
        b"# Title\nbody\n",
        b"\xEF\xBB\xBF# Title\r\nbody\r\n",
        b"# Title\r\nmixed\nendings\r\n",
        b"no trailing newline",
        b"",
        b"\r\n\r\n\r\n",
        b"lone \r carriage return",
    ];
    for raw in cases {
        let note = NoteText::decode(raw).expect("valid utf-8");
        let out = note.encode(note.text());
        assert_eq!(out, *raw, "round-trip changed bytes for {raw:?}");
    }
}

#[test]
fn edited_content_keeps_the_files_own_conventions() {
    let note = NoteText::decode(b"\xEF\xBB\xBF# Title\r\nbody\r\n").unwrap();
    let edited = note.encode("# Title\nbody\nnew line\n");
    assert_eq!(edited, b"\xEF\xBB\xBF# Title\r\nbody\r\nnew line\r\n");

    let lf = NoteText::decode(b"# Title\nbody\n").unwrap();
    assert_eq!(lf.encode("# Title\nbody\nnew\n"), b"# Title\nbody\nnew\n");
}

#[test]
fn detects_conventions() {
    let crlf = NoteText::decode(b"a\r\nb\r\n").unwrap();
    assert_eq!(crlf.fidelity().line_ending(), LineEnding::Crlf);
    assert!(!crlf.fidelity().is_mixed());
    assert!(crlf.fidelity().ends_with_newline());

    let mixed = NoteText::decode(b"a\r\nb\nc\r\n").unwrap();
    assert!(mixed.fidelity().is_mixed());
    assert_eq!(mixed.fidelity().line_ending(), LineEnding::Crlf);

    let bom = NoteText::decode(b"\xEF\xBB\xBFa\n").unwrap();
    assert!(bom.fidelity().had_bom());
    assert_eq!(bom.text(), "a\n");

    assert_eq!(NoteText::decode(b"").unwrap().fidelity().line_ending(), LineEnding::Lf);
}

#[test]
fn text_is_normalised_for_the_editor() {
    let note = NoteText::decode(b"# T\r\n\r\nbody\r\n").unwrap();
    assert_eq!(note.text(), "# T\n\nbody\n");
    assert!(!note.text().contains('\r'));
}

#[test]
fn rejects_non_utf8_rather_than_corrupting_it() {
    assert!(NoteText::decode(b"caf\xE9\n").is_none());
}

#[test]
fn content_hash_ignores_line_endings_but_not_content() {
    let crlf = NoteText::decode(b"# T\r\nbody\r\n").unwrap();
    let lf = NoteText::decode(b"# T\nbody\n").unwrap();
    assert_eq!(crlf.content_hash(), lf.content_hash());

    let other = NoteText::decode(b"# T\nbody!\n").unwrap();
    assert_ne!(crlf.content_hash(), other.content_hash());
}

#[test]
fn the_line_ending_is_named_by_its_bytes() {
    assert_eq!(LineEnding::Lf.as_str(), "\n");
    assert_eq!(LineEnding::Crlf.as_str(), "\r\n");
}

#[test]
fn a_content_hash_is_blake3_tagged_hex() {
    let note = NoteText::decode(b"abc").unwrap();
    let h = note.content_hash();
    assert_eq!(h, format!("blake3:{}", blake3::hash(b"abc").to_hex()));
    assert_eq!(h.len(), 7 + 64);
}

// ── frontmatter ─────────────────────────────────────────────────────────────

#[test]
fn splits_ordinary_frontmatter() {
    let doc = "---\ntitle: Note\ntags: [a, b]\n---\n# Heading\n";
    let s = split(doc);
    assert_eq!(s.frontmatter, Some("title: Note\ntags: [a, b]\n"));
    assert_eq!(s.body, "# Heading\n");
}

#[test]
fn reassembles_to_the_original_byte_for_byte() {
    let docs = [
        "---\ntitle: A\n---\nbody\n",
        "---\n---\nempty frontmatter\n",
        "---\nkey: 'single quoted'   # trailing comment\nz: 1\na: 2\n---\nbody",
        "no frontmatter at all\n",
        "---\nunterminated\nbody\n",
        "",
    ];
    for doc in docs {
        let s = split(doc);
        let rebuilt = match s.frontmatter {
            Some(fm) => format!("---\n{fm}---\n{}", s.body),
            None => s.body.to_string(),
        };
        assert_eq!(rebuilt, doc, "failed to reassemble {doc:?}");
    }
}

#[test]
fn preserves_key_order_and_formatting_because_it_never_parses() {
    let doc = "---\nzeta: 1\nalpha: 'quoted'\n# a comment\nmiddle: 2026-09-02\n---\nx";
    let s = split(doc);
    assert_eq!(
        s.frontmatter,
        Some("zeta: 1\nalpha: 'quoted'\n# a comment\nmiddle: 2026-09-02\n")
    );
}

#[test]
fn does_not_treat_a_thematic_break_as_frontmatter() {
    for doc in ["----\nnot frontmatter\n", "--- title\nx\n", "text\n---\nmore\n", "---"] {
        assert_eq!(split(doc).frontmatter, None, "misread {doc:?} as frontmatter");
    }
}

#[test]
fn accepts_the_yaml_document_terminator() {
    let s = split("---\na: 1\n...\nbody\n");
    assert_eq!(s.frontmatter, Some("a: 1\n"));
    assert_eq!(s.body, "body\n");
}

// ── wikilinks and tags ──────────────────────────────────────────────────────

#[test]
fn parses_every_wikilink_shape() {
    let l = &links("see [[Note]]")[0];
    assert_eq!(l.target, "Note");
    assert!(l.anchor.is_none() && l.alias.is_none() && !l.embed);

    let l = &links("[[Note|the alias]]")[0];
    assert_eq!((l.target.as_str(), l.display()), ("Note", "the alias"));

    let l = &links("[[Note#Heading]]")[0];
    assert_eq!(l.anchor.as_deref(), Some("Heading"));

    let l = &links("[[Note#^block-id|Alias]]")[0];
    assert_eq!(l.anchor.as_deref(), Some("^block-id"));
    assert_eq!(l.alias.as_deref(), Some("Alias"));

    let l = &links("![[Diagram.png]]")[0];
    assert!(l.embed);

    let l = &links("[[#Heading]]")[0];
    assert!(l.target.is_empty());
    assert_eq!(l.display(), "Heading");

    let l = &links("[[Daily/2026-09-02|today]]")[0];
    assert_eq!(l.target, "Daily/2026-09-02");
}

#[test]
fn rejects_malformed_links() {
    for bad in ["[[unclosed", "[[]]", "[[|alias]]", "[[a\nb]]", "[[a[b]]", "[single]"] {
        assert!(links(bad).is_empty(), "should not parse {bad:?}");
    }
}

#[test]
fn finds_several_in_one_line() {
    let ls = links("[[A]] then ![[B]] then [[C|c]]");
    assert_eq!(ls.len(), 3);
    assert!(ls[1].embed);
    assert_eq!(ls[2].display(), "c");
}

#[test]
fn parses_tags() {
    assert_eq!(tags("a #rust and #arc-labs here"), ["rust", "arc-labs"]);
    assert_eq!(tags("#nested/tag/deep"), ["nested/tag/deep"]);
    assert_eq!(tags("#tag,"), ["tag"]);
    assert_eq!(tags("(#tag)"), ["tag"]);
    assert_eq!(tags("#t2"), ["t2"]);
}

#[test]
fn rejects_hashes_that_are_not_tags() {
    for bad in [
        "C# is a language",
        "issue#42",
        "#42",
        "# ",
        "##double",
        "#/leading-slash",
        "#trailing/",
        "a#b",
    ] {
        assert!(tags(bad).is_empty(), "should not find a tag in {bad:?}");
    }
}

#[test]
fn byte_ranges_are_exact_so_replacement_cannot_drift() {
    let text = "x [[A|a]] y #tag z";
    let found = scan(text);
    assert_eq!(&text[found[0].start..found[0].end], "[[A|a]]");
    assert_eq!(&text[found[1].start..found[1].end], "#tag");
}

#[test]
fn ranges_stay_valid_across_multibyte_characters() {
    let text = "café ☕ [[Note]] naïve #tag 日本語";
    let found = scan(text);
    assert_eq!(&text[found[0].start..found[0].end], "[[Note]]");
    assert_eq!(&text[found[1].start..found[1].end], "#tag");
}

#[test]
fn embed_marker_is_not_swallowed_by_the_plain_link_branch() {
    let found = scan("![[X]]");
    assert_eq!(found[0].start, 0, "the `!` must be part of the matched range");
    assert_eq!(found[0].end, 6);
}

#[test]
fn a_tag_after_a_multibyte_letter_is_part_of_the_word() {
    assert!(tags("é#tag").is_empty());
    assert_eq!(tags("日本 #語"), ["語"]);
}

// ── vault paths ─────────────────────────────────────────────────────────────

#[test]
fn accepts_ordinary_paths() {
    for g in ["note.md", "Daily/2026-09-02.md", "a/b/c/deep.md", "with space.md", "emoji-check.md"] {
        assert!(VaultPath::new(g).is_ok(), "should accept {g}");
    }
}

#[test]
fn normalises_separators_and_redundant_components() {
    assert_eq!(VaultPath::new("Daily\\2026.md").unwrap().as_str(), "Daily/2026.md");
    assert_eq!(VaultPath::new("a//b/./c.md").unwrap().as_str(), "a/b/c.md");
}

#[test]
fn rejects_traversal_and_absolutes() {
    let bad = [
        "../secret",
        "a/../../etc/passwd",
        "..\\..\\Windows\\System32",
        "/etc/shadow",
        "\\\\server\\share\\x",
        "C:\\Users\\misho\\.ssh\\id_ed25519",
        "note.md:hidden",
        "",
        ".",
        "a/\0/b",
    ];
    for b in bad {
        assert!(VaultPath::new(b).is_err(), "should reject {b:?}");
    }
}

#[test]
fn rejects_windows_hostile_names_on_every_platform() {
    for b in ["CON", "aux.md", "COM1.txt", "nul", "trailing.", "trailing ", "a/PRN/b.md"] {
        assert!(VaultPath::new(b).is_err(), "should reject {b:?}");
    }
}

#[test]
fn name_accessors() {
    let p = VaultPath::new("Daily/2026-09-02.md").unwrap();
    assert_eq!(p.file_name(), "2026-09-02.md");
    assert_eq!(p.stem(), "2026-09-02");
    assert_eq!(p.extension(), Some("md"));
    assert_eq!(p.parent().unwrap().as_str(), "Daily");
    assert!(p.is_markdown());
    assert!(!p.is_canvas());

    let dot = VaultPath::new(".gitignore").unwrap();
    assert_eq!(dot.stem(), ".gitignore");
    assert_eq!(dot.extension(), None);
}

#[test]
fn each_path_problem_is_reported_as_such() {
    let reason = |s: &str| match VaultPath::new(s) {
        Err(Error::InvalidVaultPath { reason, .. }) => Some(reason),
        _ => None,
    };
    assert_eq!(reason(""), Some(PathProblem::Empty));
    assert_eq!(reason("a\0b"), Some(PathProblem::Nul));
    assert_eq!(reason("a:b"), Some(PathProblem::Colon));
    assert_eq!(reason("/abs"), Some(PathProblem::Absolute));
    assert_eq!(reason("../up"), Some(PathProblem::ParentReference));
    assert_eq!(reason("a/   /b"), Some(PathProblem::WhitespaceComponent));
    assert_eq!(reason("end."), Some(PathProblem::TrailingSpaceOrDot));
    assert_eq!(reason("LPT1"), Some(PathProblem::ReservedName));
    assert_eq!(reason("./."), Some(PathProblem::Root));
}

#[test]
fn a_canvas_path_is_not_a_note() {
    let c = VaultPath::new("Boards/Plan.CANVAS").unwrap();
    assert!(c.is_canvas());
    assert!(!c.is_markdown());
    assert_eq!(c.extension(), Some("CANVAS"));
    assert!(VaultPath::new("top.md").unwrap().parent().is_none());
}

#[test]
fn mock_llm_is_reproducible() {
    let a = MockLlm::response_for("summarise this note");
    let b = MockLlm::response_for("summarise this note");
    assert_eq!(a, b);
    assert_ne!(a, MockLlm::response_for("summarise that note"));
}

#[test]
fn a_parent_is_itself_a_vault_path() {
    for s in ["Daily/2026-09-02.md", "a/b/c/d.md", "Projects/Arc Labs/notes.md"] {
        let p = VaultPath::new(s).unwrap();
        let q = p.parent().unwrap();
        assert_eq!(format!("{}/{}", q.as_str(), p.file_name()), s);
        assert_eq!(VaultPath::new(q.as_str()).unwrap().as_str(), q.as_str());
    }
    assert_eq!(VaultPath::new("Daily/2026-09-02.md").unwrap().parent().unwrap().as_str(), "Daily");
    assert!(VaultPath::new("top.md").unwrap().parent().is_none());
}
