use arc_labs::entry::{format_rfc3339, now_rfc3339, Actor, Entry, Op};
use arc_labs::index::{canvas_stamp, fold, note_title, to_fts_query, unchanged};
use arc_labs::ledger::{change_entry, hash_of, object_location, reject_entry, restore_target, verify_object, LedgerError};
use arc_labs::render::Heading;
use arc_labs::runs::{next_run_id, run_id};
use arc_labs::api::ErrorCode;
use arc_labs::proposals::{accept_reason, entry_at, human_actor, open_proposals, proposal_at, reject_reason, restore_reason};

#[test]
fn propose_and_reject_never_touch_the_file() {
    assert!(!Op::Propose.touches_file());
    assert!(!Op::Reject.touches_file());
    assert!(!Op::Egress.touches_file());
    assert!(Op::Accept.touches_file());
    assert!(Op::Edit.touches_file());
}

#[test]
fn timestamps_are_correct_rfc3339() {
    assert_eq!(format_rfc3339(0), "1970-01-01T00:00:00Z");
    assert_eq!(format_rfc3339(1_000_000_000), "2001-09-09T01:46:40Z");
    assert_eq!(format_rfc3339(1_709_164_800), "2024-02-29T00:00:00Z");
    assert_eq!(format_rfc3339(4_107_542_400), "2100-03-01T00:00:00Z");
    assert_eq!(format_rfc3339(1_788_307_200), "2026-09-02T00:00:00Z");
}

#[test]
fn now_is_sane_and_sorts_lexicographically() {
    let a = now_rfc3339();
    assert_eq!(a.len(), 20);
    assert!(a.ends_with('Z'));
    assert!(format_rfc3339(1_000) < format_rfc3339(2_000));
}

#[test]
fn times_before_the_epoch_are_formatted_too() {
    assert_eq!(format_rfc3339(-1), "1969-12-31T23:59:59Z");
}

#[test]
fn folding_is_consistent_across_the_things_that_compare_names() {
    assert_eq!(fold("  Some Note  "), "some note");
    assert_eq!(fold("Daily/2026-09-02"), "daily/2026-09-02");
    assert_eq!(fold("RUST"), fold("rust"));
}

#[test]
fn search_text_becomes_a_query_that_cannot_be_a_syntax_error() {
    assert_eq!(to_fts_query("   "), None);
    assert_eq!(to_fts_query("rust").as_deref(), Some("\"rust\"*"));
    assert_eq!(to_fts_query("a:b  say \"hi\"").as_deref(), Some("\"a:b\" AND \"say\" AND \"\"\"hi\"\"\"*"));
}

#[test]
fn an_incremental_build_skips_what_did_not_change() {
    assert_eq!(canvas_stamp(12, -3), "size:12:mtime:-3");
    assert!(unchanged(false, Some("x"), "x"));
    assert!(!unchanged(true, Some("x"), "x"));
    assert!(!unchanged(false, None, "x"));
    assert!(!unchanged(false, Some("x"), "y"));
}

#[test]
fn a_title_is_the_first_top_level_heading() {
    let h = |level: u8, text: &str| Heading { level, text: text.into(), line: 1 };
    assert_eq!(note_title(&vec![h(2, "Sub"), h(1, "Main"), h(1, "Later")], "stem"), "Main");
    assert_eq!(note_title(&vec![h(2, "Sub")], "stem"), "stem");
}

#[test]
fn run_ids_are_zero_padded_so_they_sort() {
    assert_eq!(run_id(42, 7), "0000000000042-0007");
    assert_eq!(run_id(1_788_307_200_123, 12_345), "1788307200123-2345");
    assert!(run_id(999, 9999) < run_id(1000, 0));
}

#[test]
fn restore_goes_to_what_an_entry_recorded() {
    let me = || Actor::human("me");
    let e0 = change_entry(me(), Op::Create, "new", None, Some("one"));
    let e1 = change_entry(me(), Op::Edit, "more", Some("one"), Some("two"));
    let e2 = reject_entry(me(), "no", "three");
    let entries = vec![e0, e1, e2];
    assert_eq!(restore_target(&entries, 0).unwrap(), hash_of("one"));
    assert_eq!(restore_target(&entries, 1).unwrap(), hash_of("two"));
    // A rejection restores the state before it.
    assert_eq!(restore_target(&entries, 2).unwrap(), hash_of("two"));
    assert_eq!(restore_target(&entries, 3), Err(LedgerError::NoSuchEntry { index: 3, len: 3 }));
    let deleted = vec![change_entry(me(), Op::Delete, "gone", Some("x"), None)];
    assert_eq!(restore_target(&deleted, 0), Err(LedgerError::NothingToRestore { index: 0 }));
}

#[test]
fn stored_content_reads_back_under_its_hash() {
    let h = hash_of("body\n");
    let (dir, _file) = object_location(&h).unwrap();
    assert_eq!(dir.len(), 2);
    assert!(verify_object(&h, b"body\n").is_ok());
    assert!(matches!(verify_object(&h, b"other"), Err(LedgerError::CorruptObject(_))));
    assert!(matches!(object_location("blake3:zz"), Err(LedgerError::BadHash(_))));
}

#[test]
fn an_entry_starts_with_no_hashes() {
    let e = Entry::new(Actor::human("me"), Op::Edit, "r");
    assert!(e.before.is_none() && e.after.is_none() && e.patch.is_none());
    assert_eq!(e.ts.len(), 20);
}

fn entry_with(op: Op, reason: &str, patch: Option<&str>) -> Entry {
    let actor = if matches!(op, Op::Propose) { Actor::agent("weaver", "llama3", "run-1") } else { Actor::human("misho") };
    Entry::new(actor, op, reason).with_patch(patch.map(str::to_string))
}

#[test]
fn a_decision_settles_the_oldest_open_proposal() {
    let entries = vec![
        entry_with(Op::Propose, "first", Some("--- a\n+++ b\n+one\n")),
        entry_with(Op::Propose, "second", Some("--- a\n+++ b\n+two\n-old\n")),
        entry_with(Op::Accept, "accepted", None),
        entry_with(Op::Edit, "manual edit", None),
        entry_with(Op::Propose, "third", None),
        entry_with(Op::Reject, "no", None),
    ];
    let open = open_proposals(&entries);
    assert_eq!(open.len(), 1, "{open:?}");
    assert_eq!(open[0].index, 4);
    assert_eq!(open[0].reason, "third");

    let open = open_proposals(&entries[..5].to_vec());
    assert_eq!(open.iter().map(|p| p.index).collect::<Vec<_>>(), vec![1, 4]);
    assert_eq!(open[0].reason, "second");
    assert_eq!(open[0].model.as_deref(), Some("llama3"));
    assert_eq!((open[0].added, open[0].removed), (1, 1));
    assert_eq!(open[1].patch, "");
}

#[test]
fn a_decision_with_nothing_open_settles_nothing() {
    let entries = vec![entry_with(Op::Reject, "stray", None), entry_with(Op::Propose, "p", None)];
    let open = open_proposals(&entries);
    assert_eq!(open.len(), 1);
    assert_eq!(open[0].index, 1);
}

#[test]
fn only_a_proposal_can_be_accepted_or_rejected() {
    let entries = vec![entry_with(Op::Edit, "manual edit", None), entry_with(Op::Propose, "p", None)];
    assert_eq!(proposal_at(&entries, 1).unwrap().reason, "p");
    let e = proposal_at(&entries, 0).unwrap_err();
    assert_eq!(e.code, ErrorCode::NoteNotFound);
    assert_eq!(e.message, "no proposal at 0");
    assert_eq!(proposal_at(&entries, 7).unwrap_err().message, "no proposal at 7");
    assert_eq!(entry_at(&entries, 0).unwrap().reason, "manual edit");
    assert_eq!(entry_at(&entries, 2).unwrap_err().message, "no entry 2");
}

#[test]
fn decisions_say_who_and_which_proposal() {
    assert_eq!(accept_reason("misho", 3, "tidy links"), "accepted by misho \u{2014} proposal 3: tidy links");
    assert_eq!(reject_reason(12, "tidy links"), "rejected proposal 12: tidy links");
    assert_eq!(restore_reason(0), "restored to entry 0");
    let a = human_actor("misho", Some("browser-2"));
    assert!(!a.is_agent());
    assert_eq!(a.session.as_deref(), Some("browser-2"));
    assert_eq!(human_actor("misho", None).session, None);
}

#[test]
fn a_typed_quote_stays_inside_the_search_literal() {
    assert_eq!(to_fts_query("a\"b").as_deref(), Some("\"a\"\"b\"*"));
    assert_eq!(to_fts_query("\" NOT").as_deref(), Some("\"\"\"\" AND \"NOT\"*"));
    assert_eq!(to_fts_query("   "), None);
}

#[test]
fn a_malformed_hash_never_becomes_a_path() {
    for bad in ["", "ab", "../../etc/passwd", "blake3:../../x", "zz zz", "blake3:g0g0g0g0"] {
        assert!(matches!(object_location(bad), Err(LedgerError::BadHash(_))), "accepted {bad:?}");
    }
}

#[test]
fn run_ids_sort_chronologically_and_do_not_collide() {
    let mut counter: u64 = 0;
    let ids: Vec<String> = (0..500).map(|_| next_run_id(&mut counter)).collect();
    let mut sorted = ids.clone();
    sorted.sort();
    assert_eq!(ids, sorted, "ids should already be in creation order");
    let unique: std::collections::HashSet<&String> = ids.iter().collect();
    assert_eq!(unique.len(), ids.len(), "ids collided");
}

#[test]
fn the_run_counter_advances_and_wraps() {
    let mut counter: u64 = 9_999;
    let id = next_run_id(&mut counter);
    assert!(id.ends_with("-9999"));
    assert_eq!(counter, 10_000);
    let id = next_run_id(&mut counter);
    assert!(id.ends_with("-0000"));
    let mut top: u64 = u64::MAX;
    let _ = next_run_id(&mut top);
    assert_eq!(top, 0);
}

#[test]
fn a_stored_object_reads_back_as_written() {
    for content in ["", "plain", "naïve — ünïcode\r\n", "line one\nline two\n"] {
        let h = hash_of(content);
        assert_eq!(verify_object(&h, content.as_bytes()), Ok(content.to_string()));
        let bare = h.trim_start_matches("blake3:");
        assert_eq!(verify_object(bare, content.as_bytes()), Ok(content.to_string()));
    }
}

#[test]
fn timestamps_keep_twenty_characters_and_time_order_to_the_end_of_9999() {
    let last = format_rfc3339(253_402_300_799);
    assert_eq!(last, "9999-12-31T23:59:59Z");
    let stamps: Vec<String> = [0, 59, 60, 86_399, 86_400, 951_782_400, 951_868_799, 978_307_199, 978_307_200, 253_402_300_799]
        .iter()
        .map(|s| format_rfc3339(*s))
        .collect();
    for s in &stamps {
        assert_eq!(s.len(), 20);
        assert!(s.ends_with('Z'));
    }
    for w in stamps.windows(2) {
        assert!(w[0] < w[1], "{} should sort before {}", w[0], w[1]);
    }
    assert_eq!(format_rfc3339(951_782_400), "2000-02-29T00:00:00Z");
    assert_eq!(format_rfc3339(978_307_199), "2000-12-31T23:59:59Z");
}
