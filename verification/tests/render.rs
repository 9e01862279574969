use arc_labs::render::render;

#[test]
fn collects_headings_with_levels_and_lines() {
    let r = render("# One

text

## Two *emphasised*

### `code heading`
");
    let got: Vec<(u8, &str)> =
        r.headings.iter().map(|h| (h.level, h.text.as_str())).collect();
    assert_eq!(got, [(1, "One"), (2, "Two emphasised"), (3, "code heading")]);
    // Lines are 1-based and in document order.
    assert!(r.headings.windows(2).all(|w| w[0].line < w[1].line));
    assert_eq!(r.headings[0].line, 1);
}

#[test]
fn heading_lines_are_relative_to_the_body_not_the_file() {
    // Frontmatter is split off before parsing, so a heading on the first
    // body line is line 1 regardless of how long the frontmatter was.
    let r = render("---
a: 1
b: 2
c: 3
---
# First
");
    assert_eq!(r.headings[0].line, 1);
}

#[test]
fn renders_ordinary_markdown() {
    let r = render("# Title\n\nSome **bold** and `code`.\n");
    assert!(r.html.contains("<h1>Title</h1>"));
    assert!(r.html.contains("<strong>bold</strong>"));
    assert!(r.html.contains("<code>code</code>"));
}

#[test]
fn renders_gfm_extensions() {
    let table = render("| a | b |\n| - | - |\n| 1 | 2 |\n");
    assert!(table.html.contains("<table>"));

    let tasks = render("- [ ] todo\n- [x] done\n");
    assert!(tasks.html.contains("type=\"checkbox\""));

    let strike = render("~~gone~~\n");
    assert!(strike.html.contains("<del>gone</del>"));
}

#[test]
fn separates_frontmatter_from_the_rendered_body() {
    let r = render("---\ntitle: T\n---\n# Body\n");
    assert_eq!(r.frontmatter.as_deref(), Some("title: T\n"));
    assert!(r.html.contains("<h1>Body</h1>"));
    assert!(!r.html.contains("title: T"), "frontmatter must not render as content");
}

#[test]
fn wikilinks_become_arc_scheme_links() {
    let r = render("See [[Other Note|the alias]].\n");
    assert!(r.html.contains("href=\"arc://note/Other%20Note\""), "got: {}", r.html);
    assert!(r.html.contains(">the alias</a>"));
    assert_eq!(r.links.len(), 1);
    assert_eq!(r.links[0].target, "Other Note");
}

#[test]
fn embeds_and_anchors_are_distinguishable_in_the_url() {
    let r = render("![[Diagram.png]] and [[Note#Heading]]\n");
    assert!(r.html.contains("arc://embed/Diagram.png"));
    assert!(r.html.contains("arc://note/Note#Heading"));
    assert_eq!(r.embeds.len(), 1);
    assert_eq!(r.links.len(), 1);
}

#[test]
fn tags_are_collected_and_deduplicated() {
    let r = render("#rust and #arc-labs and #rust again\n");
    assert_eq!(r.tags, ["rust", "arc-labs"]);
    assert!(r.html.contains("arc://tag/rust"));
}

/// The bug this whole design exists to prevent.
#[test]
fn tag_deduplication_ignores_case_and_keeps_the_first_spelling() {
    // `#Rust` and `#rust` are one tag, as they are in Obsidian. Counting
    // them separately makes every tag total in the index wrong.
    let r = render("#Rust then #rust then #RUST\n");
    assert_eq!(r.tags, ["Rust"], "one tag, spelled as first written");
    // All three still render as links — only the collected list is deduped.
    assert_eq!(r.html.matches("arc://tag/").count(), 3);
}

#[test]
fn code_is_never_linkified() {
    let r = render(
        "Inline `[[NotALink]]` and `#nottag`.\n\n```\n[[AlsoNot]]\n#nope\n```\n\n    [[Indented]]\n",
    );
    assert!(r.links.is_empty(), "found links in code: {:?}", r.links);
    assert!(r.tags.is_empty(), "found tags in code: {:?}", r.tags);
    assert!(!r.html.contains("arc://"));
    // …and the code still renders as code, with its brackets intact.
    assert!(r.html.contains("[[NotALink]]"));
}

#[test]
fn existing_markdown_links_are_left_alone() {
    let r = render("[label [[X]]](https://example.com)\n");
    assert!(r.links.is_empty(), "rewrote inside an existing link: {:?}", r.links);
    assert!(r.html.contains("https://example.com"));
}

#[test]
fn raw_html_in_a_note_is_escaped_not_executed() {
    // The server shell serves this to a browser. It must never execute.
    let r = render("<script>alert(1)</script>\n\n<img src=x onerror=alert(1)>\n");
    // What matters is that no tag survives as a *tag*. The attribute text
    // may still appear as literal characters inside an escaped element —
    // that is the point of escaping rather than dropping, and it is inert.
    assert!(!r.html.contains("<script"), "raw script survived: {}", r.html);
    assert!(!r.html.contains("<img"), "raw img survived: {}", r.html);
    assert!(r.html.contains("&lt;script&gt;"), "text was dropped instead of escaped");
    assert!(r.html.contains("&lt;img src=x onerror=alert(1)&gt;"));
}

#[test]
fn a_hostile_note_name_cannot_break_out_of_the_href() {
    let r = render("[[evil\" onmouseover=\"alert(1)]]\n");
    assert!(!r.html.contains("onmouseover=\"alert"), "escaped the attribute: {}", r.html);
    assert!(r.html.contains("%22"), "the quote should be percent-encoded: {}", r.html);
}

#[test]
fn text_around_a_link_survives_intact() {
    let r = render("before [[X]] after\n");
    assert!(r.html.contains("before "));
    assert!(r.html.contains(" after"));
}

#[test]
fn handles_the_degenerate_notes_in_the_real_vault() {
    // Two notes in E-Tron-Memory are zero bytes, and one of them is
    // referenced by a canvas. Rendering must not panic or produce garbage.
    for text in ["", "\n", "   \n", "---\n---\n"] {
        let r = render(text);
        assert!(r.links.is_empty() && r.tags.is_empty());
    }
}

#[test]
fn notes_are_rendered_with_raw_html_escaped() {
    let o = arc_labs::render::options();
    assert!(o.escape);
    assert!(o.hardbreaks && o.table && o.tasklist && o.strikethrough && o.footnotes && o.autolink);
    let r = render("line one\nline two\n");
    assert!(r.html.contains("<br />"), "a single newline is a line break: {}", r.html);
}

#[test]
fn only_top_level_headings_are_collected_and_a_link_in_one_keeps_its_text() {
    let r = render("> # Quoted\n\n# See [[Other]] and [site](https://x.example)\n");
    assert_eq!(r.headings.len(), 1);
    assert_eq!(r.headings[0].text, "See [[Other]] and site");
    assert_eq!(r.headings[0].line, 3);
    assert_eq!(r.links.len(), 1);
}
