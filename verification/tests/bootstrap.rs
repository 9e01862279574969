use arc_labs::doctor::{
    endpoint_hostport, missing_packages, no_vault_check, ollama_check, toolchain_check,
    vault_counts_check, vault_failed_check, webview_check, Check, Level, Report,
};
use arc_labs::platform::{cgroup_names_container, os_release_value, version_names_wsl, Os, PackageManager, Platform};
use arc_labs::setup::{failure, plan, preflight, Outcome, Ran};

fn linux(manager: PackageManager) -> Platform {
    Platform {
        os: Os::Linux,
        arch: "x86_64".into(),
        distro: Some("ubuntu".into()),
        distro_name: Some("Ubuntu 24.04".into()),
        package_manager: manager,
        in_container: false,
        in_wsl: false,
        display: true,
    }
}

fn report_with(manager: PackageManager, failing: &[&str]) -> Report {
    let checks = failing
        .iter()
        .map(|n| Check {
            name: (*n).into(),
            level: Level::Fail,
            detail: "missing".into(),
            fix: Some("arc-labs setup".into()),
        })
        .collect();
    Report { platform: linux(manager), checks }
}

// ── doctor ──────────────────────────────────────────────────────────────────

#[test]
fn a_report_renders_and_names_a_fix_for_every_problem() {
    let platform = linux(PackageManager::Apt);
    let checks = vec![
        webview_check(&platform, false),
        toolchain_check("cargo", None),
        toolchain_check("node", Some("/usr/bin/node")),
        ollama_check("http://127.0.0.1:1", Err("connection refused".into())),
        no_vault_check(),
    ];
    let report = Report { platform, checks };
    let text = report.render();
    assert!(text.contains("ARC-LABS doctor"));
    assert!(text.contains("platform"));
    for c in &report.checks {
        if c.level != Level::Okay {
            assert!(c.fix.is_some(), "check '{}' fails with no fix offered", c.name);
        }
    }
}

#[test]
fn warnings_do_not_fail_the_exit_code_but_failures_do() {
    let mut r = Report { platform: linux(PackageManager::Apt), checks: vec![Check::ok("a", "fine")] };
    assert_eq!(r.exit_code(), 0);
    r.checks.push(Check::warn("b", "later", Some("x".into())));
    assert_eq!(r.exit_code(), 0, "a warning must not fail CI");
    r.checks.push(Check::fail("c", "broken", Some("y".into())));
    assert_eq!(r.exit_code(), 1);
}

#[test]
fn an_unreachable_endpoint_is_a_warning_not_a_crash() {
    let c = ollama_check("http://127.0.0.1:1", Err("connection refused".into()));
    assert_eq!(c.level, Level::Warn);
    assert!(c.fix.is_some());
    assert_eq!(
        c.detail,
        "not reachable at http://127.0.0.1:1 (connection refused); needed from Phase 5"
    );
    let ok = ollama_check("http://localhost:11434", Ok(()));
    assert_eq!(ok.level, Level::Okay);
    assert_eq!(ok.detail, "reachable at http://localhost:11434");
}

#[test]
fn endpoint_parsing_tolerates_the_shapes_people_actually_write() {
    for e in ["http://127.0.0.1:1", "127.0.0.1:1", "http://127.0.0.1:1/", "https://127.0.0.1:1"] {
        assert_eq!(endpoint_hostport(e), "127.0.0.1:1", "failed to parse {e}");
    }
    assert_eq!(endpoint_hostport(" localhost "), "localhost:11434");
}

#[test]
fn a_missing_vault_fails_without_echoing_the_path() {
    let c = vault_failed_check("vault root does not exist", false);
    assert_eq!(c.level, Level::Fail);
    assert!(!c.detail.contains("no/such"), "leaked the path: {}", c.detail);
    let s = vault_failed_check("io error: denied", true);
    assert_eq!(s.detail, "cannot scan: io error: denied");
}

#[test]
fn a_real_vault_is_reported_with_its_contents() {
    let c = vault_counts_check("notes", 1, 1);
    assert_eq!(c.level, Level::Okay);
    assert!(c.detail.contains("1 notes"), "got {}", c.detail);
    assert!(c.detail.contains("1 canvases"));
}

#[test]
fn the_report_lists_each_check_under_one_column() {
    let report = Report {
        platform: linux(PackageManager::Apt),
        checks: vec![Check::ok("a", "fine"), Check::warn("longer", "hmm", Some("do x".into()))],
    };
    let text = report.render();
    assert!(text.contains("  OK   a       fine\n"), "{text}");
    assert!(text.contains("  WARN longer  hmm\n"), "{text}");
    assert!(text.contains("               -> do x\n"), "{text}");
    assert!(text.ends_with("  Usable now; the warnings above matter for later phases.\n"));
    assert!(text.contains("  desktop shell   supported\n"));
    assert!(text.contains("  package manager apt\n"));
    assert!(text.contains("  platform        Ubuntu 24.04 (x86_64)\n"));
}

#[test]
fn the_webview_check_follows_the_platform() {
    let mut p = linux(PackageManager::Apt);
    assert_eq!(webview_check(&p, true).level, Level::Okay);
    assert_eq!(webview_check(&p, false).level, Level::Fail);
    p.in_container = true;
    assert_eq!(webview_check(&p, false).level, Level::Okay);
    p.os = Os::Windows;
    let w = webview_check(&p, false);
    assert_eq!(w.name, "webview2");
    assert_eq!(w.fix.as_deref(), Some("winget install -e --id Microsoft.EdgeWebView2Runtime"));
}

// ── platform ────────────────────────────────────────────────────────────────

#[test]
fn install_commands_are_shaped_per_manager() {
    let apt = PackageManager::Apt.install_command(&["libwebkit2gtk-4.1-dev"]).unwrap();
    assert_eq!(apt[..4], ["sudo", "apt-get", "install", "-y"]);
    assert_eq!(apt.last().unwrap(), "libwebkit2gtk-4.1-dev");

    let pac = PackageManager::Pacman.install_command(&["webkit2gtk"]).unwrap();
    assert!(pac.contains(&"--noconfirm".to_string()));

    let win = PackageManager::Winget.install_command(&["Ollama.Ollama"]).unwrap();
    assert!(win.contains(&"--id".to_string()));

    assert!(PackageManager::Unavailable.install_command(&["anything"]).is_none());
}

#[test]
fn a_container_never_claims_to_support_a_desktop_shell() {
    let p = Platform {
        os: Os::Linux,
        arch: "x86_64".into(),
        distro: Some("debian".into()),
        distro_name: Some("Debian".into()),
        package_manager: PackageManager::Apt,
        in_container: true,
        in_wsl: false,
        display: true,
    };
    assert!(!p.supports_desktop_shell());
    assert!(p.describe().contains("container"));
}

#[test]
fn the_machine_is_described_in_words() {
    let mut p = linux(PackageManager::Dnf);
    p.distro_name = None;
    p.in_wsl = true;
    p.in_container = true;
    assert_eq!(p.describe(), "Linux (x86_64, WSL, container)");
    assert_eq!(Os::from_name("macos"), Os::Mac);
    assert_eq!(Os::from_name("freebsd"), Os::Other);
    assert_eq!(Os::Mac.as_str(), "macOS");
    assert_eq!(PackageManager::Unavailable.as_str(), "none");
}

#[test]
fn os_release_values_are_read_and_unquoted() {
    let text = "NAME=\"Ubuntu\"\r\nID=ubuntu\nPRETTY_NAME=\"Ubuntu 24.04 LTS\"\n";
    assert_eq!(os_release_value(text, "ID=").as_deref(), Some("ubuntu"));
    assert_eq!(os_release_value(text, "PRETTY_NAME=").as_deref(), Some("Ubuntu 24.04 LTS"));
    assert_eq!(os_release_value(text, "VERSION="), None);
    assert_eq!(os_release_value("ID=\"\"", "ID=").as_deref(), Some(""));
}

#[test]
fn containers_and_wsl_are_recognised_from_what_the_kernel_says() {
    assert!(cgroup_names_container("0::/system.slice/docker-abc.scope\n"));
    assert!(cgroup_names_container("1:name=systemd:/kubepods/besteffort\n"));
    assert!(!cgroup_names_container("0::/init.scope\n"));
    assert!(version_names_wsl("Linux version 5.15.90.1-Microsoft-standard-WSL2"));
    assert!(!version_names_wsl("Linux version 6.8.0-generic"));
}

// ── setup ───────────────────────────────────────────────────────────────────

#[test]
fn a_healthy_machine_produces_an_empty_plan() {
    let p = plan(&report_with(PackageManager::Apt, &[]));
    assert!(p.is_empty());
    assert!(p.render().contains("Nothing to install"));
}

#[test]
fn apt_gets_one_command_with_every_package() {
    let p = plan(&report_with(PackageManager::Apt, &["webkit2gtk"]));
    assert_eq!(p.commands.len(), 1);
    assert!(p.packages.contains(&"libwebkit2gtk-4.1-dev".to_string()));
    assert!(p.render().contains("apt-get install -y"));
}

#[test]
fn winget_gets_one_command_per_package() {
    let mut r = report_with(PackageManager::Winget, &["webview2", "node"]);
    r.platform.os = Os::Windows;
    let p = plan(&r);
    assert_eq!(p.commands.len(), p.packages.len());
    assert!(p.commands.iter().all(|c| c.contains(&"--id".to_string())));
}

#[test]
fn the_plan_shows_literal_commands_because_a_summary_is_not_consent() {
    let p = plan(&report_with(PackageManager::Apt, &["webkit2gtk"]));
    let text = p.render();
    assert!(text.contains("sudo apt-get install -y libwebkit2gtk-4.1-dev"), "got:\n{text}");
    assert!(text.contains("No vault content is read or sent"));
}

#[test]
fn an_unknown_package_manager_is_reported_not_guessed_at() {
    let p = plan(&report_with(PackageManager::Unavailable, &["webkit2gtk"]));
    assert!(p.is_empty(), "no manager means no plan to offer");
    assert!(matches!(preflight(&p), Err(Outcome::NothingToDo)));
}

#[test]
fn consent_is_asked_before_anything_happens() {
    let p = plan(&report_with(PackageManager::Apt, &["webkit2gtk"]));
    match preflight(&p) {
        Ok(shown) => assert!(shown.contains("apt-get"), "the user must see the command before deciding"),
        Err(o) => panic!("no question was asked: {o:?}"),
    }
}

#[test]
fn missing_packages_follow_the_failing_checks() {
    let r = report_with(PackageManager::Pacman, &["npm"]);
    assert_eq!(missing_packages(&r), ["nodejs", "npm"]);
    let mut ok = report_with(PackageManager::Apt, &[]);
    ok.checks.push(Check::ok("webkit2gtk", "found"));
    assert!(missing_packages(&ok).is_empty());
    let w = report_with(PackageManager::Winget, &["cargo"]);
    assert_eq!(missing_packages(&w), ["Rustlang.Rustup"]);
    let z = report_with(PackageManager::Zypper, &["webkit2gtk"]);
    assert!(missing_packages(&z).is_empty());
}

#[test]
fn a_failed_command_is_reported_with_its_exit_code() {
    let cmd = vec!["sudo".to_string(), "apt-get".into(), "install".into()];
    assert_eq!(failure(&cmd, &Ran::Exited { success: true, code: Some(0) }), None);
    assert_eq!(
        failure(&cmd, &Ran::Exited { success: false, code: Some(100) }).as_deref(),
        Some("sudo apt-get install (exit 100)")
    );
    assert_eq!(
        failure(&cmd, &Ran::Exited { success: false, code: None }).as_deref(),
        Some("sudo apt-get install (exit -1)")
    );
    assert_eq!(
        failure(&cmd, &Ran::NotStarted("not found".into())).as_deref(),
        Some("sudo apt-get install (not found)")
    );
}

#[test]
fn the_first_manager_found_in_probe_order_wins() {
    assert_eq!(PackageManager::first_present(&[]), PackageManager::Unavailable);
    assert_eq!(PackageManager::first_present(&[false; 7]), PackageManager::Unavailable);
    assert_eq!(PackageManager::first_present(&[true]), PackageManager::Apt);
    assert_eq!(PackageManager::first_present(&[false, false, true, true]), PackageManager::Pacman);
    assert_eq!(PackageManager::first_present(&[false, false, false, false, false, true, true]), PackageManager::Winget);
    assert_eq!(PackageManager::first_present(&[false, false, false, false, false, false, true]), PackageManager::Brew);
    assert_eq!(PackageManager::first_present(&[false, false, false, false, false, false, false, true]), PackageManager::Unavailable);
}
