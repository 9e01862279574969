use arc_labs::api::ErrorCode;
use arc_labs::runs::{cancel_run, failure_state, run_precheck, run_status, RunCost, RunState, Runs, KEEP};

#[test]
fn a_run_accumulates_streamed_tokens() {
    let mut runs = Runs::new();
    runs.start("r1", "c.canvas", "n");
    runs.node_started("r1", "p", "prompt");
    for piece in ["Hello", " ", "world"] {
        runs.token("r1", "p", piece);
    }

    let s = runs.get("r1").unwrap();
    assert_eq!(s.state, RunState::Running);
    assert_eq!(s.nodes[0].output, "Hello world");
    assert!(s.nodes[0].running);
}

#[test]
fn finishing_a_node_records_its_throughput() {
    let mut runs = Runs::new();
    runs.start("r1", "c", "n");
    runs.node_started("r1", "p", "prompt");
    runs.node_finished(
        "r1",
        "p",
        "done",
        Some(RunCost { tokens: 40, elapsed_ms: 2000, tokens_per_sec_bits: 20.0f64.to_bits(), peak_rss_bytes: 1234 }),
    );

    let s = runs.get("r1").unwrap();
    assert_eq!(s.nodes[0].tokens, Some(40));
    assert_eq!(s.nodes[0].tokens_per_sec_bits.map(f64::from_bits), Some(20.0));
    assert_eq!(s.total_tokens, 40);
    assert!(!s.nodes[0].running);
}

#[test]
fn cancelling_sets_the_state() {
    let mut runs = Runs::new();
    runs.start("r1", "c", "n");

    assert!(runs.cancel("r1"));
    assert_eq!(runs.get("r1").unwrap().state, RunState::Cancelled);
    assert!(!runs.cancel("nope"));
}

#[test]
fn a_cancelled_run_is_not_relabelled_as_failed() {
    let mut runs = Runs::new();
    runs.start("r1", "c", "n");
    runs.cancel("r1");
    runs.finish("r1", RunState::Failed, Some("the run was cancelled".into()), 10);

    assert_eq!(runs.get("r1").unwrap().state, RunState::Cancelled);
}

#[test]
fn egress_is_visible_while_it_is_happening() {
    let mut runs = Runs::new();
    runs.start("r1", "c", "n");
    runs.egress("r1", "http://workstation.local:11434", 512);
    runs.egress("r1", "http://workstation.local:11434", 256);

    let s = runs.get("r1").unwrap();
    assert_eq!(s.egress_to.as_deref(), Some("http://workstation.local:11434"));
    assert_eq!(s.egress_bytes, Some(768), "bytes accumulate across nodes");
}

#[test]
fn old_finished_runs_are_pruned_but_running_ones_are_kept() {
    let mut runs = Runs::new();
    for i in 0..30 {
        let id = format!("r{i:03}");
        runs.start(&id, "c", "n");
        if i < 25 {
            runs.finish(&id, RunState::Done, None, 1);
        }
    }
    let all = runs.list();
    assert!(all.len() <= KEEP + 5, "runs should be pruned, got {}", all.len());
    assert_eq!(all.iter().filter(|s| s.state == RunState::Running).count(), 5);
}

#[test]
fn pruning_drops_the_oldest_finished_runs_and_keeps_exactly_keep() {
    let mut runs = Runs::new();
    for i in 0..25 {
        let id = format!("r{i:03}");
        runs.start(&id, "c", "n");
        runs.finish(&id, RunState::Done, None, 1);
    }
    let ids: Vec<String> = runs.list().into_iter().map(|s| s.id).collect();
    assert_eq!(ids.len(), KEEP);
    assert_eq!(ids.first().map(String::as_str), Some("r005"));
    assert_eq!(ids.last().map(String::as_str), Some("r024"));
    assert!(runs.get("r004").is_none());
}

#[test]
fn finishing_a_run_stops_its_nodes_and_keeps_the_error() {
    let mut runs = Runs::new();
    runs.start("r1", "c.canvas", "out");
    runs.node_started("r1", "a", "prompt");
    runs.node_started("r1", "b", "transform");
    runs.token("r1", "b", "partial");
    runs.finish("r1", RunState::NeedsEgressApproval, Some("needs approval".into()), 1500);

    let s = runs.get("r1").unwrap();
    assert_eq!(s.state, RunState::NeedsEgressApproval);
    assert_eq!(s.error.as_deref(), Some("needs approval"));
    assert_eq!(s.elapsed_ms, 1500);
    assert!(s.nodes.iter().all(|n| !n.running));
    assert_eq!(s.nodes[1].output, "partial");
    assert_eq!(s.total_tokens, 0);
}

#[test]
fn a_proposal_is_recorded_on_its_node_only() {
    let mut runs = Runs::new();
    runs.start("r1", "c", "n");
    runs.node_started("r1", "a", "prompt");
    runs.node_started("r1", "b", "prompt");
    runs.set_proposed("r1", "b", "notes/out.md");
    runs.set_proposed("r1", "missing", "notes/x.md");

    let s = runs.get("r1").unwrap();
    assert_eq!(s.nodes[0].proposed_to, None);
    assert_eq!(s.nodes[1].proposed_to.as_deref(), Some("notes/out.md"));
    assert_eq!(s.nodes.len(), 2);
}

#[test]
fn updates_to_an_unknown_run_change_nothing() {
    let mut runs = Runs::new();
    runs.start("r1", "c", "n");
    runs.node_started("nope", "p", "prompt");
    runs.token("nope", "p", "x");
    runs.egress("nope", "http://far.example", 10);
    runs.finish("nope", RunState::Done, None, 1);

    let s = runs.get("r1").unwrap();
    assert!(s.nodes.is_empty());
    assert_eq!(s.egress_to, None);
    assert_eq!(s.state, RunState::Running);
    assert!(runs.get("nope").is_none());
}

#[test]
fn starting_an_id_again_replaces_the_run_and_the_list_is_in_id_order() {
    let mut runs = Runs::new();
    runs.start("b", "one.canvas", "n");
    runs.start("a", "two.canvas", "n");
    runs.node_started("b", "p", "prompt");
    runs.start("b", "three.canvas", "m");

    let all = runs.list();
    let ids: Vec<&str> = all.iter().map(|s| s.id.as_str()).collect();
    assert_eq!(ids, ["a", "b"]);
    assert_eq!(all[1].canvas, "three.canvas");
    assert_eq!(all[1].target, "m");
    assert!(all[1].nodes.is_empty());
}

#[test]
fn a_canvas_with_a_cycle_or_a_missing_target_does_not_start() {
    let s = |v: &[&str]| -> Vec<String> { v.iter().map(|x| x.to_string()).collect() };

    let e = run_precheck(&s(&["a", "b"]), &s(&["a", "b", "c"]), "c").unwrap_err();
    assert_eq!(e.code, ErrorCode::Config);
    assert_eq!(e.message, "this canvas has a cycle: a, b");

    let e = run_precheck(&s(&[]), &s(&["a", "b"]), "z").unwrap_err();
    assert_eq!(e.code, ErrorCode::NoteNotFound);
    assert_eq!(e.message, "no runnable node z on this canvas");

    assert!(run_precheck(&s(&[]), &s(&["a", "b"]), "b").is_ok());
}

#[test]
fn a_stopped_run_is_told_apart_from_a_failed_one() {
    assert_eq!(failure_state("egress to http://far:11434 needs approval"), RunState::NeedsEgressApproval);
    assert_eq!(failure_state("the run was cancelled"), RunState::Cancelled);
    assert_eq!(failure_state("model not found"), RunState::Failed);
    assert_eq!(failure_state("cancelled, and needs approval"), RunState::NeedsEgressApproval);
}

#[test]
fn polling_or_cancelling_an_unknown_run_says_so() {
    let mut runs = Runs::new();
    runs.start("r1", "c", "n");
    assert_eq!(run_status(&runs, "r1").unwrap().id, "r1");
    let e = run_status(&runs, "r9").unwrap_err();
    assert_eq!(e.code, ErrorCode::NoteNotFound);
    assert_eq!(e.message, "no run r9");
    assert!(cancel_run(&mut runs, "r1").is_ok());
    assert_eq!(cancel_run(&mut runs, "r9").unwrap_err().message, "no run r9");
    assert_eq!(runs.get("r1").unwrap().state, RunState::Cancelled);
}
