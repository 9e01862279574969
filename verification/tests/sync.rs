use arc_labs::api::ErrorCode;
use arc_labs::entry::Op;
use arc_labs::ledger::hash_of;
use arc_labs::sync::{check_generation, generation, hub_target, resolution_entries, schedule_of, sync_blocked, sync_status, Cadence, Role, Schedule};

#[test]
fn only_a_client_with_a_hub_and_a_token_is_ready() {
    assert_eq!(
        sync_blocked(Role::Hub, "http://hub:7777", true, "ARC_TOKEN").as_deref(),
        Some("this instance is a hub; other machines sync to it")
    );
    assert_eq!(
        sync_blocked(Role::Standalone, "", false, "ARC_TOKEN").as_deref(),
        Some("this vault is on disk only. Connect it to a vault server to sync.")
    );
    assert_eq!(sync_blocked(Role::Client, "   ", true, "ARC_TOKEN").as_deref(), Some("no vault server is set"));
    assert_eq!(
        sync_blocked(Role::Client, "http://hub:7777", false, "ARC_TOKEN").as_deref(),
        Some("no token: set ARC_TOKEN in the environment this app starts in")
    );
    assert_eq!(sync_blocked(Role::Client, "http://hub:7777", true, "ARC_TOKEN"), None);
}

#[test]
fn the_status_names_the_role_and_cadence_and_never_the_token() {
    let s = sync_status(Role::Client, Cadence::Weekly, "http://hub:7777", true, "ARC_TOKEN", 3, 30, None);
    assert_eq!(s.role, "client");
    assert_eq!(s.cadence, "weekly");
    assert!(s.ready);
    assert_eq!(s.blocked, None);
    assert_eq!((s.hour, s.minute), (3, 30));

    let s = sync_status(Role::Standalone, Cadence::Manual, "", false, "ARC_TOKEN", 0, 0, Some("2026-01-01T00:00:00Z".into()));
    assert_eq!(s.role, "standalone");
    assert_eq!(s.cadence, "manual");
    assert!(!s.ready);
    assert_eq!(s.last_sync_at.as_deref(), Some("2026-01-01T00:00:00Z"));
}

#[test]
fn the_hub_is_refused_until_it_is_set_up() {
    let e = hub_target(Role::Standalone, "http://hub", Some("t".into()), "ARC_TOKEN").unwrap_err();
    assert_eq!(e.code, ErrorCode::NotPermitted);
    assert_eq!(e.message, "this vault is not connected to a vault server");

    let e = hub_target(Role::Client, " \t", Some("t".into()), "ARC_TOKEN").unwrap_err();
    assert_eq!(e.code, ErrorCode::Config);
    assert_eq!(e.message, "no vault server is set");

    let e = hub_target(Role::Client, "http://hub", None, "ARC_TOKEN").unwrap_err();
    assert_eq!(e.code, ErrorCode::Config);
    assert_eq!(e.message, "no token: set ARC_TOKEN in the environment this app starts in");

    let (url, token) = hub_target(Role::Client, "  http://hub:7777 \n", Some("secret".into()), "ARC_TOKEN").unwrap();
    assert_eq!(url, "http://hub:7777");
    assert_eq!(token, "secret");
}

#[test]
fn only_a_client_on_a_cadence_is_scheduled_and_times_are_clamped() {
    assert_eq!(schedule_of(Role::Hub, Cadence::Daily, 3, 0, 0), None);
    assert_eq!(schedule_of(Role::Client, Cadence::Manual, 3, 0, 0), None);
    assert_eq!(
        schedule_of(Role::Client, Cadence::Daily, 30, 75, -120),
        Some(Schedule { cadence: Cadence::Daily, hour: 23, minute: 59, utc_offset_secs: -7200 })
    );
    assert_eq!(
        schedule_of(Role::Client, Cadence::Monthly, 4, 15, 60),
        Some(Schedule { cadence: Cadence::Monthly, hour: 4, minute: 15, utc_offset_secs: 3600 })
    );
}

#[test]
fn settling_a_conflict_records_the_loser_first() {
    let es = resolution_entries("misha", Some("desktop"), "their text\n", "my text\n", true);
    assert_eq!(es.len(), 2);
    assert_eq!(es[0].op, Op::Edit);
    assert_eq!(es[0].reason, "the version this sync did not keep, recorded before it was replaced");
    assert_eq!(es[0].before, None);
    assert_eq!(es[0].after.as_deref(), Some(hash_of("their text\n").as_str()));
    assert_eq!(es[1].reason, "resolved a sync conflict, kept mine");
    assert_eq!(es[1].before.as_deref(), Some(hash_of("their text\n").as_str()));
    assert_eq!(es[1].after.as_deref(), Some(hash_of("my text\n").as_str()));
    assert_eq!(es[1].actor.id, "misha");
    assert_eq!(es[1].actor.session.as_deref(), Some("desktop"));

    let es = resolution_entries("misha", None, "a", "b", false);
    assert_eq!(es[1].reason, "resolved a sync conflict, kept theirs");

    assert!(resolution_entries("misha", None, "same", "same", true).is_empty());
}

#[test]
fn a_push_planned_against_a_stale_generation_is_refused() {
    let now = generation("a1b2", 7);
    assert_eq!(now, "a1b2-7");
    assert!(check_generation(None, &now).is_ok());
    assert!(check_generation(Some("  "), &now).is_ok());
    assert!(check_generation(Some(" a1b2-7\n"), &now).is_ok());
    let e = check_generation(Some("a1b2-6"), &now).unwrap_err();
    assert_eq!(e.code, ErrorCode::Conflict);
    assert_eq!(
        e.message,
        "the vault moved since this was planned (planned against a1b2-6, now a1b2-7); ask for the manifest again and re-plan"
    );
}
