use std::cmp::Ordering;

use arc_labs::doctor::{check_toolchain, Level};
use arc_labs::canvas_file::Canvas;
use arc_labs::ledger::hash_of;
use arc_labs::path::VaultPath;
use arc_labs::tree::entry_order;
use arc_labs::types::{card_history_path, edit_result};
use arc_labs::vault::Saved;

#[test]
fn directories_come_first_then_names_ignoring_case() {
    assert_eq!(entry_order(true, "zeta", false, "alpha.md"), Ordering::Less);
    assert_eq!(entry_order(false, "alpha.md", true, "zeta"), Ordering::Greater);
    assert_eq!(entry_order(false, "apple.md", false, "Banana.md"), Ordering::Less);
    assert_eq!(entry_order(false, "Banana.md", false, "apple.md"), Ordering::Greater);
    assert_eq!(entry_order(false, "Note.md", false, "note.md"), Ordering::Less);
    assert_eq!(entry_order(false, "note.md", false, "Note.md"), Ordering::Greater);
    assert_eq!(entry_order(true, "Daily", true, "Daily"), Ordering::Equal);
}

#[test]
fn a_file_card_takes_its_author_from_its_note_and_others_from_the_canvas() {
    let canvas = VaultPath::new("boards/plan.canvas").unwrap();
    assert_eq!(card_history_path(Some("notes/a.md".into()), &canvas).as_str(), "notes/a.md");
    assert_eq!(card_history_path(Some("./notes//a.md".into()), &canvas).as_str(), "notes/a.md");
    assert_eq!(card_history_path(Some("../outside.md".into()), &canvas).as_str(), "boards/plan.canvas");
    assert_eq!(card_history_path(None, &canvas).as_str(), "boards/plan.canvas");
}

#[test]
fn an_edit_reports_the_hash_of_the_text_as_it_will_be_read() {
    let r = edit_result(Saved::Written { bytes: 12 }, "one\r\ntwo\r\n", "blake3:old".into());
    assert!(r.written);
    assert_eq!(r.bytes, 12);
    assert_eq!(r.hash, hash_of("one\ntwo\n"));
    let r = edit_result(Saved::Unchanged, "\u{feff}same\n", "blake3:old".into());
    assert!(!r.written);
    assert_eq!(r.bytes, 0);
    assert_eq!(r.hash, hash_of("same\n"));
}

#[test]
fn the_build_tools_are_checked_in_order_and_a_missing_one_only_warns() {
    let checks = check_toolchain();
    let names: Vec<&str> = checks.iter().map(|c| c.name.as_str()).collect();
    assert_eq!(names, ["cargo", "node", "npm"]);
    for c in &checks {
        if c.level == Level::Warn {
            assert_eq!(c.detail, "not on PATH (only needed to build from source)");
            assert_eq!(c.fix.as_deref(), Some("arc-labs setup"));
        } else {
            assert_eq!(c.level, Level::Okay);
        }
    }
}

#[test]
fn an_empty_file_is_not_a_canvas() {
    assert!(Canvas::parse("").is_err());
}
