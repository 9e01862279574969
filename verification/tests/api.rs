use arc_labs::api::{canvas_error, capability_list, check_base, index_error, ledger_error, note_candidate, ApiError, Capabilities, ErrorCode, Shell};
use arc_labs::canvas::{CanvasError, NodeKind};
use arc_labs::canvas_file::moved_reason;
use arc_labs::index::IndexError;
use arc_labs::listing::{is_listed, sort_by_name};
use arc_labs::index::SearchHit;
use arc_labs::mcp::{
    error_response, initialize_result, response, tool_result, tools_list_result, read_tool_call, tool_definitions, Tool,
    read_request, request_dispatch, dispatch, ledger_answer, no_method, no_tool, propose_answer, required, search_answer, tool_choice, tools, write_refusal,
    Dispatch, Method, ToolChoice, INVALID_PARAMS, INVALID_REQUEST, METHOD_NOT_FOUND, PARSE_ERROR, PROTOCOL_VERSION,
};
use arc_labs::ledger::LedgerError;
use arc_labs::entry::{Actor, Entry, Op};
use arc_labs::config::ModelAccess;
use arc_labs::draft::{draft_prompt, drafted_template, DRAFT_SYSTEM};
use arc_labs::error::Error;
use arc_labs::templates::{clean, substitute, template_of, template_reason, template_target, template_title, templates_in, templates_root};
use arc_labs::tree::TreeEntry;
use arc_labs::path::VaultPath;
use arc_labs::types::{card_author, diff_counts, note_view, save_result, to_timeline, DirEntry, Link};
use arc_labs::fidelity::NoteText;
use arc_labs::render::RenderedNote;
use arc_labs::vault::Saved;
use arc_labs::weave::{link_target, pause_slices, with_related_link};
use arc_labs::wikilink::WikiLink;

// ── drafting ────────────────────────────────────────────────────────────────

#[test]
fn fenced_output_is_unwrapped() {
    let raw = "```markdown\n# {{title}}\n\n## Notes\n```";
    assert_eq!(clean(raw), "# {{title}}\n\n## Notes\n");
}

#[test]
fn trailing_whitespace_does_not_survive() {
    assert_eq!(clean("```\n# {{title}}\n\n-   \n```"), "# {{title}}\n\n-\n");
}

#[test]
fn a_bare_fence_with_no_language_is_unwrapped_too() {
    assert_eq!(clean("```\n# {{title}}\n```"), "# {{title}}\n");
}

#[test]
fn unfenced_output_is_left_alone_but_gains_a_trailing_newline() {
    assert_eq!(clean("# {{title}}\n\n## Notes"), "# {{title}}\n\n## Notes\n");
}

#[test]
fn a_fence_without_a_closing_fence_keeps_its_text() {
    assert_eq!(clean("  ```md\nbody  "), "body\n");
    assert_eq!(clean("```only"), "only\n");
    assert_eq!(clean(""), "\n");
}

#[test]
fn an_empty_description_is_refused_before_any_request_is_made() {
    let local = "http://localhost:11434";
    assert_eq!(draft_prompt("   ", local, true, ModelAccess::LocalOnly).unwrap_err().code, ErrorCode::Config);
    assert_eq!(draft_prompt("", local, true, ModelAccess::LocalOnly).unwrap_err().code, ErrorCode::Config);
    assert_eq!(
        draft_prompt(" \n\t", local, false, ModelAccess::TrustedEndpoint).unwrap_err().message,
        "describe the template you want"
    );
}

#[test]
fn a_remote_endpoint_is_refused_under_local_only_access() {
    let remote = "https://models.example.com";
    let e = draft_prompt("a weekly review", remote, false, ModelAccess::LocalOnly).unwrap_err();
    assert_eq!(e.code, ErrorCode::NotPermitted);
    assert_eq!(
        e.message,
        "https://models.example.com is not on this machine, and model access is set to local-only. \
         Change it in Settings → Models if you meant to allow it."
    );
    assert!(draft_prompt("a weekly review", remote, false, ModelAccess::TrustedEndpoint).is_ok());
    assert!(draft_prompt("a weekly review", remote, false, ModelAccess::AskEachRun).is_ok());
}

#[test]
fn the_prompt_is_the_instructions_then_the_trimmed_description() {
    let p = draft_prompt("  a weekly review \n", "http://127.0.0.1:11434", true, ModelAccess::LocalOnly).unwrap();
    assert_eq!(p, format!("{DRAFT_SYSTEM} a weekly review\n"));
    assert!(p.starts_with("You write reusable note templates"));
    assert!(p.contains("The template is for: a weekly review\n"));
}

#[test]
fn a_drafted_template_is_cleaned_and_an_empty_one_refused() {
    assert_eq!(drafted_template("```markdown\n# {{title}}\n```", "m").unwrap(), "# {{title}}\n");
    let e = drafted_template("```\n   \n```", "qwen3.5:0.8b").unwrap_err();
    assert_eq!(e.code, ErrorCode::Io);
    assert_eq!(
        e.message,
        "qwen3.5:0.8b returned nothing usable. A reasoning model can spend its whole budget before \
         writing anything — try a smaller instruct model in Settings → Models."
    );
    assert_eq!(drafted_template("", "m").unwrap_err().code, ErrorCode::Io);
}

// ── errors across the boundary ──────────────────────────────────────────────

#[test]
fn conversion_never_carries_a_host_path_across_the_boundary() {
    let secret = r"C:\Users\misho\.ssh\id_ed25519".to_string();
    let api: ApiError = Error::PathEscapesVault(secret).into();
    assert_eq!(api.code, ErrorCode::InvalidPath);
    assert!(!api.message.contains("misho"), "leaked: {}", api.message);
}

#[test]
fn codes_are_stable_snake_case_for_the_ui_to_switch_on() {
    assert_eq!(ApiError::no_vault().code.as_str(), "no_vault");
    assert_eq!(ErrorCode::AlreadyExists.as_str(), "already_exists");
}

#[test]
fn each_core_error_has_its_code() {
    let code = |e: Error| ApiError::from(e).code;
    assert_eq!(code(Error::VaultRootMissing("x".into())), ErrorCode::VaultNotFound);
    assert_eq!(code(Error::VaultRootNotDirectory("x".into())), ErrorCode::NotADirectory);
    assert_eq!(code(Error::NoteNotFound("a.md".into())), ErrorCode::NoteNotFound);
    assert_eq!(code(Error::AlreadyExists("a.md".into())), ErrorCode::AlreadyExists);
    assert_eq!(code(Error::NotUtf8 { path: "a.md".into() }), ErrorCode::NotUtf8);
    assert_eq!(code(Error::Config { path: "c".into(), reason: "r".into() }), ErrorCode::Config);
    assert_eq!(code(Error::io("p", "denied")), ErrorCode::Io);
    let e = ApiError::from(Error::NoteNotFound("a.md".into()));
    assert_eq!(e.message, "no such note: a.md");
}

#[test]
fn a_switched_off_operation_says_so() {
    let e = ApiError::not_permitted("browsing");
    assert_eq!(e.code, ErrorCode::NotPermitted);
    assert_eq!(e.message, "browsing is not available in this mode");
    assert_eq!(e.to_text(), e.message);
    assert_eq!(ApiError::new(ErrorCode::Io, "x").message, "x");
}

#[test]
fn capabilities_follow_the_deployment() {
    let d = Capabilities::desktop();
    assert_eq!(d.shell, Shell::Desktop);
    assert!(d.browse_filesystem && d.native_folder_picker && d.expose_paths);
    let l = Capabilities::local_server();
    assert!(l.browse_filesystem && !l.native_folder_picker && l.expose_paths);
    let r = Capabilities::remote_server();
    assert!(!r.browse_filesystem && !r.native_folder_picker && !r.expose_paths);

    let names = capability_list(false, r);
    assert_eq!(names, ["notes", "ledger", "canvas", "runtime", "mcp", "events"]);
    let names = capability_list(true, d);
    assert_eq!(
        names,
        ["notes", "ledger", "canvas", "index", "weave", "runtime", "mcp", "events", "browse", "folder-picker"]
    );
}

#[test]
fn a_name_collision_becomes_another_name() {
    assert_eq!(note_candidate("Untitled", 1), "Untitled.md");
    assert_eq!(note_candidate("Untitled.md", 2), "Untitled 2.md");
    assert_eq!(note_candidate("a/b.md", 17), "a/b 17.md");
}

// ── templates ───────────────────────────────────────────────────────────────

#[test]
fn obsidian_variables_are_substituted() {
    let out = substitute(
        "# {{title}}\n\nWritten {{date}} at {{time}}.\n",
        "Weekly review",
        "2026-09-03T02:18:34Z",
    );
    assert_eq!(out, "# Weekly review\n\nWritten 2026-09-03 at 02:18.\n");
}

#[test]
fn an_unknown_placeholder_is_left_alone() {
    let out = substitute("{{title}} — {{project}} — {{nope}}", "A", "2026-09-03T02:18:34Z");
    assert_eq!(out, "A — {{project}} — {{nope}}");
}

#[test]
fn substitution_survives_a_malformed_timestamp() {
    let out = substitute("{{date}}/{{time}}", "T", "not-a-timestamp");
    assert_eq!(out, "not-a-timestamp/00:00");
}

#[test]
fn a_template_with_no_variables_is_copied_verbatim() {
    let body = "# Fixed\n\nNothing to substitute.\n";
    assert_eq!(substitute(body, "X", "2026-09-03T02:18:34Z"), body);
}

#[test]
fn a_short_or_split_time_falls_back() {
    assert_eq!(substitute("{{time}}", "t", "2026-09-03T0"), "00:00");
    assert_eq!(substitute("{{time}}", "t", "2026-09-03T12:3T4"), "00:00");
    assert_eq!(substitute("{{time}}|{{date}}", "t", "xTabcdé"), "00:00|x");
    assert_eq!(substitute("{{time}}", "t", "dTé1234"), "é123");
    assert_eq!(substitute("{{time}}", "t", "xT12:34:56"), "12:34");
}

#[test]
fn substitution_runs_title_then_date_then_time() {
    assert_eq!(substitute("{{title}}", "{{date}}", "2026-01-01T00:00:00Z"), "2026-01-01");
}

#[test]
fn templates_live_where_the_config_says() {
    assert_eq!(templates_root("/Templates/"), "Templates");
    assert_eq!(templates_root("meta/templates"), "meta/templates");
    assert_eq!(templates_root("///"), "");

    let (path, stem) = template_target("Templates", "  Meeting.md ").unwrap();
    assert_eq!(path.as_str(), "Templates/Meeting.md");
    assert_eq!(stem, "Meeting");
    assert_eq!(template_target("", "x").unwrap_err().code, ErrorCode::Config);
    assert_eq!(template_target("T", " .md ").unwrap_err().code, ErrorCode::InvalidPath);

    assert_eq!(template_title("Notes/Weekly.md"), "Weekly");
    assert_eq!(template_title("Notes/Plan.canvas"), "Untitled");

    let entry = |p: &str, name: &str, is_dir: bool| TreeEntry {
        path: VaultPath::new(p).unwrap(),
        name: name.into(),
        is_dir,
        parent: None,
        size: 0,
    };
    let t = template_of(&entry("Templates/Daily.md", "Daily.md", false), "Templates").unwrap();
    assert_eq!((t.path.as_str(), t.name.as_str()), ("Templates/Daily.md", "Daily"));
    assert!(template_of(&entry("Templates/Sub", "Sub", true), "Templates").is_none());
    assert!(template_of(&entry("Other/Daily.md", "Daily.md", false), "Templates").is_none());
    assert!(template_of(&entry("Templates/pic.png", "pic.png", false), "Templates").is_none());
}

// ── weave ───────────────────────────────────────────────────────────────────

#[test]
fn a_related_section_is_created_once_and_reused() {
    let out = with_related_link("# A\n\nbody\n", "Notes/Beta");
    assert_eq!(out, "# A\n\nbody\n\n## Related\n\n- [[Notes/Beta]]\n");

    let twice = with_related_link(&out, "Notes/Gamma");
    assert_eq!(twice.matches("## Related").count(), 1, "made a second section: {twice}");
    assert!(twice.contains("- [[Notes/Beta]]"));
    assert!(twice.contains("- [[Notes/Gamma]]"));
}

#[test]
fn adding_a_link_that_is_already_there_changes_nothing() {
    let text = "# A\n\n[[Beta]] is mentioned inline.\n";
    assert_eq!(with_related_link(text, "Beta"), text);
}

#[test]
fn a_related_section_in_the_middle_does_not_swallow_what_follows() {
    let text = "# A\n\n## Related\n\n- [[One]]\n\n## Notes\n\nkeep me\n";
    let out = with_related_link(text, "Two");
    assert!(out.contains("## Notes\n\nkeep me\n"), "lost the next section: {out}");
    let related = out.find("## Related").unwrap();
    let notes = out.find("## Notes").unwrap();
    assert!(out[related..notes].contains("[[Two]]"), "link landed outside the section: {out}");
}

#[test]
fn an_empty_note_gets_a_clean_section() {
    assert_eq!(with_related_link("", "Beta"), "## Related\n\n- [[Beta]]\n");
}

#[test]
fn a_link_target_is_path_qualified_without_the_extension() {
    assert_eq!(link_target("Notes/Beta.md"), "Notes/Beta");
    assert_eq!(link_target("Beta.md"), "Beta");
    assert_eq!(link_target("Diagrams/Plan.canvas"), "Diagrams/Plan.canvas");
}

#[test]
fn adding_a_link_twice_is_adding_it_once() {
    for text in ["", "x", "x\n", "x\n\n", "## Related\n- [[A]]\n# Next\n"] {
        let once = with_related_link(text, "N");
        assert_eq!(with_related_link(&once, "N"), once);
    }
}

// ── wire conversions ────────────────────────────────────────────────────────

#[test]
fn a_save_reports_what_it_did() {
    let w = save_result(Saved::Written { bytes: 12 }, "hello");
    assert!(w.written);
    assert_eq!(w.bytes, 12);
    assert_eq!(w.hash, format!("blake3:{}", blake3::hash(b"hello").to_hex()));
    let u = save_result(Saved::Unchanged, "hello");
    assert!(!u.written);
    assert_eq!(u.bytes, 0);
    assert_eq!(u.hash, w.hash);
}

#[test]
fn diff_counts_skip_the_file_headers() {
    let patch = "--- before\n+++ after\n@@ -1,2 +1,2 @@\n a\n-b\n+c\n+d\n";
    assert_eq!(diff_counts(Some(patch)), (2, 1));
    assert_eq!(diff_counts(None), (0, 0));
    assert_eq!(diff_counts(Some("++x\n--")), (1, 1));
}

#[test]
fn a_timeline_entry_says_who_and_what() {
    let mut e = Entry::new(Actor::agent("weave", "m", "s"), Op::Propose, "why");
    e.patch = Some("+a\n-b\n-c\n".into());
    let t = to_timeline(3, &e);
    assert_eq!(t.index, 3);
    assert_eq!(t.actor_kind, "agent");
    assert_eq!(t.op, "propose");
    assert!(!t.touched_file);
    assert_eq!((t.added, t.removed), (1, 2));
    assert_eq!(t.model.as_deref(), Some("m"));

    let h = to_timeline(0, &Entry::new(Actor::human("me"), Op::Edit, "typed"));
    assert_eq!(h.actor_kind, "human");
    assert_eq!(h.op, "edit");
    assert!(h.touched_file);
}

#[test]
fn a_link_is_flattened_for_the_wire() {
    let w = WikiLink { target: "".into(), anchor: Some("H".into()), alias: None, embed: false };
    let l = Link::from(&w);
    assert_eq!(l.display, "H");
    assert_eq!(l.resolved, None);
    assert_eq!(l.anchor.as_deref(), Some("H"));
}

#[test]
fn a_save_from_a_stale_base_is_a_conflict() {
    assert_eq!(check_base("blake3:aa", Some("blake3:aa")), Ok(()));
    assert_eq!(check_base("blake3:aa", None), Ok(()));
    let e = check_base("blake3:aa", Some("blake3:bb")).unwrap_err();
    assert_eq!(e.code, ErrorCode::Conflict);
    assert_eq!(e.code.as_str(), "conflict");
}

#[test]
fn store_failures_cross_without_host_paths() {
    let l = ledger_error(&LedgerError::Io { path: "/home/me/v/.arc".to_string(), kind: "permission denied".to_string() });
    assert_eq!(l.code, ErrorCode::Io);
    assert!(!l.message.contains("/home/me"));
    let i = index_error(&IndexError::SchemaMismatch { found: 2, expected: 3 });
    assert_eq!((i.code, i.message.as_str()), (ErrorCode::Config, "the index was built by a different version"));
    let i = index_error(&IndexError::Io { path: "/home/me/v/.arc".to_string(), reason: "denied".to_string() });
    assert_eq!((i.code, i.message.as_str()), (ErrorCode::Io, "the index could not be read"));
    let c = canvas_error(&CanvasError::NotAnObject);
    assert_eq!(c.code, ErrorCode::NotUtf8);
    assert_eq!(c.message, "this canvas could not be read: not a JSON object at the top level");
}

#[test]
fn a_card_is_drawn_in_the_colour_of_whoever_last_changed_its_note() {
    let human = Entry::new(Actor::human("misho"), Op::Edit, "manual edit");
    let agent = Entry::new(Actor::agent("weaver", "llama3", "run-1"), Op::Accept, "accepted");
    let proposal = Entry::new(Actor::agent("weaver", "llama3", "run-2"), Op::Propose, "maybe");
    assert_eq!(card_author(&vec![]), (None, None));
    assert_eq!(card_author(&vec![proposal.clone()]), (None, None));
    assert_eq!(card_author(&vec![human.clone(), proposal.clone()]), (Some("human".to_string()), None));
    assert_eq!(
        card_author(&vec![human, agent, proposal]),
        (Some("agent".to_string()), Some("llama3".to_string()))
    );
    assert_eq!(NodeKind::Unknown.name(), "unknown");
    assert_eq!(NodeKind::File.name(), "file");
    assert_eq!(moved_reason(3), "moved 3 card(s)");
}

#[test]
fn a_note_view_carries_its_text_only_for_an_editor() {
    let note = NoteText::decode(b"# A\r\n\r\nlink to [[B]]\r\n").unwrap();
    let mut r = RenderedNote::empty();
    r.html = "<h1>A</h1>".to_string();
    r.links = vec![WikiLink { target: "B".to_string(), anchor: None, alias: None, embed: false }];
    r.tags = vec!["tag".to_string()];
    let p = VaultPath::new("Daily/a.md").unwrap();
    let v = note_view(&p, r.clone(), &note, false);
    assert_eq!(v.name, "a.md");
    assert_eq!(v.path, p);
    assert_eq!(v.text, None);
    assert_eq!(v.line_ending, "CRLF");
    assert!(!v.line_endings_mixed);
    assert_eq!(v.links[0].display, "B");
    assert_eq!(v.tags, vec!["tag".to_string()]);
    assert_eq!(v.size, "# A\n\nlink to [[B]]\n".len());
    assert_eq!(v.hash, note.content_hash());
    let e = note_view(&p, r, &note, true);
    assert_eq!(e.text.as_deref(), Some("# A\n\nlink to [[B]]\n"));
}

#[test]
fn a_folder_listing_hides_dot_folders_and_ignores_case_when_ordering() {
    assert!(is_listed("Notes"));
    assert!(!is_listed(".git"));
    assert!(is_listed(""));
    let entry = |name: &str| DirEntry { name: name.to_string(), path: format!("/v/{name}"), is_vault: false };
    let sorted = sort_by_name(vec![entry("beta"), entry("Alpha"), entry("alpha"), entry("Zeta"), entry("gamma")]);
    let names: Vec<&str> = sorted.iter().map(|e| e.name.as_str()).collect();
    assert_eq!(names, ["Alpha", "alpha", "beta", "gamma", "Zeta"]);
    assert!(sort_by_name::<DirEntry>(vec![]).is_empty());
}

#[test]
fn templates_are_listed_from_their_folder_by_name() {
    let entry = |p: &str, name: &str, is_dir: bool| TreeEntry {
        path: VaultPath::new(p).unwrap(),
        name: name.to_string(),
        is_dir,
        parent: None,
        size: 0,
    };
    let entries = vec![
        entry("Templates", "Templates", true),
        entry("Templates/weekly.md", "weekly.md", false),
        entry("Templates/Daily.md", "Daily.md", false),
        entry("Templates/image.png", "image.png", false),
        entry("Notes/daily.md", "daily.md", false),
    ];
    let found = templates_in(&entries, "Templates");
    assert_eq!(found.iter().map(|t| t.name.as_str()).collect::<Vec<_>>(), ["weekly", "Daily"]);
    let sorted = sort_by_name(found);
    assert_eq!(sorted[0].path, "Templates/Daily.md");
    assert_eq!(sorted[1].name, "weekly");
    assert!(templates_in(&entries, "").is_empty());
    assert_eq!(template_reason(true, "qwen3.5:0.8b"), "drafted with qwen3.5:0.8b, read and saved");
    assert_eq!(template_reason(false, "qwen3.5:0.8b"), "created");
}

#[test]
fn no_tool_writes_to_a_file() {
    let names: Vec<&str> = tools().into_iter().map(|t| t.name()).collect();
    assert_eq!(names.len(), 7);
    for forbidden in ["note_write", "note_edit", "note_save", "note_create", "note_delete"] {
        assert!(!names.contains(&forbidden), "a write tool exists: {forbidden}");
        assert_eq!(tool_choice(forbidden), ToolChoice::WriteRefused);
    }
    assert!(names.contains(&"note_propose"));
    for t in tools() {
        assert_eq!(tool_choice(t.name()), ToolChoice::Run(t));
    }
    assert_eq!(tool_choice("note_teleport"), ToolChoice::Unknown);
    assert!(write_refusal().contains("note_propose"));
}

#[test]
fn requests_are_routed_by_method_and_notifications_get_no_reply() {
    assert_eq!(dispatch(true, Some("initialize")), Dispatch::Run { method: Method::Initialize, reply: true });
    assert_eq!(dispatch(true, Some("tools/list")), Dispatch::Run { method: Method::ToolsList, reply: true });
    assert_eq!(dispatch(false, Some("tools/call")), Dispatch::Run { method: Method::ToolsCall, reply: false });
    assert_eq!(dispatch(false, Some("notifications/initialized")), Dispatch::Silent);
    assert_eq!(dispatch(true, Some("initialized")), Dispatch::Silent);
    assert_eq!(dispatch(true, None), Dispatch::Invalid);
    assert_eq!(dispatch(true, Some("does/not/exist")), Dispatch::Run { method: Method::Unknown, reply: true });
    assert_eq!(no_method("does/not/exist"), "no method does/not/exist");
    assert_eq!(no_tool("x"), "no tool x");
    assert_eq!(required("path"), "path is required");
    assert_eq!((PARSE_ERROR, INVALID_REQUEST, METHOD_NOT_FOUND, INVALID_PARAMS), (-32700, -32600, -32601, -32602));
    assert_eq!(PROTOCOL_VERSION, "2024-11-05");
}

#[test]
fn tool_answers_say_what_happened() {
    assert_eq!(search_answer("prov\"", &vec![]), "No note matches \"prov\\\"\".");
    let hits = vec![
        SearchHit { path: "a.md".to_string(), title: "Alpha".to_string(), snippet: "the «provenance»\nof it".to_string() },
        SearchHit { path: "b.md".to_string(), title: "Beta".to_string(), snippet: "x".to_string() },
    ];
    assert_eq!(search_answer("provenance", &hits), "Alpha\n  a.md\n  the «provenance» of it\n\nBeta\n  b.md\n  x");
    assert_eq!(
        propose_answer("a.md", 2, 1, 4, "e-tron", "qwen3.5:0.8b"),
        "Proposed a change to a.md (+2 \u{2212}1).\n\nThe note has NOT been modified. The proposal is entry 4 in its ledger, attributed to e-tron (qwen3.5:0.8b), and is waiting for a person to accept or reject it."
    );
    assert_eq!(ledger_answer("a.md", &vec![]), "a.md has no recorded history.");
    let human = to_timeline(0, &Entry::new(Actor::human("misho"), Op::Edit, "manual edit"));
    let agent = to_timeline(12, &Entry::new(Actor::agent("weave", "m", "s"), Op::Propose, "a suggestion"));
    let text = ledger_answer("a.md", &vec![human.clone(), agent.clone()]);
    assert_eq!(
        text,
        format!(
            "  0 {} human misho edit  manual edit\n 12 {} agent weave propose (did not touch the file)  a suggestion",
            human.ts, agent.ts
        )
    );
}

#[test]
fn the_link_daemon_pays_what_a_pass_owes_and_waits_the_interval_when_done() {
    // More to do: only what the pass owes, but always at least one slice.
    assert_eq!(pause_slices(10, false, 1000, 60), 4);
    assert_eq!(pause_slices(10, false, 0, 60), 1);
    // Done, or stopped early: the interval too, in quarter seconds.
    assert_eq!(pause_slices(0, false, 1000, 60), 4 + 240);
    assert_eq!(pause_slices(10, true, 0, 60), 240);
    // An interval under five seconds counts as five.
    assert_eq!(pause_slices(0, false, 0, 1), 20);
}

#[test]
fn adding_a_link_keeps_the_note_in_front_of_the_new_section() {
    for text in ["", "body", "body\n", "body\n\n", "# A\n\nsome [[Other]] text\n"] {
        let out = with_related_link(text, "Notes/Beta");
        assert!(out.starts_with(text));
        assert_eq!(out.matches("## Related").count(), 1);
        assert!(out.contains("[[Notes/Beta]]"));
    }
}

#[test]
fn a_request_line_is_read_into_its_id_method_and_params() {
    let q = read_request(r#"{"jsonrpc":"2.0","id":7,"method":"tools/call","params":{"name":"note_read","arguments":{"path":"a.md"}}}"#).unwrap();
    assert_eq!(q.id.as_deref(), Some("7"));
    assert_eq!(q.method.as_deref(), Some("tools/call"));
    assert_eq!(q.params, r#"{"name":"note_read","arguments":{"path":"a.md"}}"#);
    assert_eq!(q.dispatch(), Dispatch::Run { method: Method::ToolsCall, reply: true });

    let q = read_request(r#"{"jsonrpc":"2.0","method":"ping"}"#).unwrap();
    assert_eq!(q.id, None);
    assert_eq!(q.params, "{}");
    assert_eq!(q.dispatch(), Dispatch::Run { method: Method::Ping, reply: false });

    assert!(read_request("{not json").is_err());
    assert_eq!(read_request("[1, 2]").unwrap().dispatch(), Dispatch::Invalid);
    assert_eq!(read_request(r#"{"id":1,"method":5}"#).unwrap().dispatch(), Dispatch::Invalid);

    let (id, d) = request_dispatch(r#"{"id":"x","method":"notifications/initialized"}"#).unwrap();
    assert_eq!(id.as_deref(), Some("\"x\""));
    assert_eq!(d, Dispatch::Silent);
    let (id, d) = request_dispatch(r#"{"id":null,"method":"nope"}"#).unwrap();
    assert_eq!(id.as_deref(), Some("null"));
    assert_eq!(d, Dispatch::Run { method: Method::Unknown, reply: true });
    assert!(request_dispatch("").is_err());
}

#[test]
fn a_tool_call_reads_its_name_and_arguments() {
    let call = read_tool_call(r#"{"name":"vault_search","arguments":{"query":"rust","limit":5,"agent":7}}"#);
    assert_eq!(call.name.as_deref(), Some("vault_search"));
    let args = &call.arguments;
    assert_eq!(args.text("query"), Ok("rust".to_string()));
    assert_eq!(args.text("missing"), Err("missing is required".to_string()));
    assert_eq!(args.text("agent"), Err("agent is required".to_string()));
    assert_eq!(args.text_or("agent", "mcp"), "mcp");
    assert_eq!(args.count("limit", 20), 5);
    assert_eq!(args.count("query", 20), 20);
    assert_eq!(args.count("absent", 20), 20);

    let call = read_tool_call(r#"{"name":"note_read","arguments":{"path":"Daily//a.md","bad":"../x.md","n":-1,"f":2.5}}"#);
    assert_eq!(call.arguments.path("path").unwrap().as_str(), "Daily/a.md");
    assert_eq!(
        call.arguments.path("bad").unwrap_err(),
        "path is not valid inside a vault (path contains a parent reference): ../x.md"
    );
    assert_eq!(call.arguments.path("nope").unwrap_err(), "nope is required");
    assert_eq!(call.arguments.count("n", 3), 3);
    assert_eq!(call.arguments.count("f", 3), 3);

    let call = read_tool_call(r#"{"name":5,"arguments":[1]}"#);
    assert_eq!(call.name, None);
    assert!(call.arguments.entries.is_empty());
    let call = read_tool_call("[]");
    assert_eq!(call.name, None);
}

#[test]
fn the_tool_list_is_json_with_every_tool_and_no_writer() {
    let text = tool_definitions();
    let list: serde_json::Value = serde_json::from_str(&text).unwrap();
    let items = list.as_array().unwrap();
    assert_eq!(items.len(), 7);
    let names: Vec<&str> = items.iter().map(|t| t["name"].as_str().unwrap()).collect();
    assert_eq!(
        names,
        vec!["vault_search", "note_read", "note_propose", "link_suggest", "canvas_read", "canvas_run", "ledger_read"]
    );
    assert!(!names.iter().any(|n| n.contains("write")));
    assert_eq!(items[1]["description"], "Read one note's markdown source, exactly as it is on disk.");
    let required: Vec<&str> =
        items[2]["inputSchema"]["required"].as_array().unwrap().iter().map(|v| v.as_str().unwrap()).collect();
    assert_eq!(required, vec!["path", "content", "reason"]);
    assert!(text.starts_with(r#"[{"name":"vault_search","description":"Full-text search"#));
    assert_eq!(Tool::LinkSuggest.input_schema(), r#"{"type":"object","properties":{"limit":{"type":"integer"}}}"#);
}

#[test]
fn a_link_never_adds_a_second_related_heading() {
    let once = with_related_link("# Note\n\nbody", "Other");
    assert_eq!(once.matches("## Related").count(), 1);
    let twice = with_related_link(&once, "Third");
    assert_eq!(twice.matches("## Related").count(), 1);
    assert!(twice.contains("[[Other]]") && twice.contains("[[Third]]"));
    let two = "## Related\n\n- [[A]]\n\n## Notes\n\n## Related\n";
    assert_eq!(with_related_link(two, "B").matches("## Related").count(), 2);
    assert_eq!(with_related_link("", "B").matches("## Related").count(), 1);
}

#[test]
fn answers_are_json_rpc_with_the_request_id() {
    assert_eq!(response(Some("7"), "{}"), r#"{"jsonrpc":"2.0","id":7,"result":{}}"#);
    assert_eq!(response(Some("\"x\""), "[]"), r#"{"jsonrpc":"2.0","id":"x","result":[]}"#);
    assert_eq!(
        error_response(None, PARSE_ERROR, "expected value at line 1 column 1"),
        r#"{"jsonrpc":"2.0","id":null,"error":{"code":-32700,"message":"expected value at line 1 column 1"}}"#
    );
    assert_eq!(
        error_response(Some("3"), METHOD_NOT_FOUND, &no_method("say \"hi\"")),
        r#"{"jsonrpc":"2.0","id":3,"error":{"code":-32601,"message":"no method say \"hi\""}}"#
    );
    assert_eq!(
        tool_result("line one\nline two", false),
        r#"{"content":[{"type":"text","text":"line one\nline two"}],"isError":false}"#
    );
    let refused: serde_json::Value = serde_json::from_str(&tool_result(write_refusal(), true)).unwrap();
    assert_eq!(refused["isError"], true);
    let init: serde_json::Value = serde_json::from_str(&initialize_result("0.1.0")).unwrap();
    assert_eq!(init["protocolVersion"], PROTOCOL_VERSION);
    assert_eq!(init["serverInfo"]["name"], "arc-labs");
    let list: serde_json::Value = serde_json::from_str(&tools_list_result()).unwrap();
    assert_eq!(list["tools"].as_array().unwrap().len(), 7);
    assert_eq!(error_response(Some("1"), i64::MIN, ""), r#"{"jsonrpc":"2.0","id":1,"error":{"code":-9223372036854775808,"message":""}}"#);
}
