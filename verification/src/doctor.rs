//! Diagnosing the environment: what each check concludes, how a report reads,
//! and what setup would install. Every failing check carries the exact command
//! that fixes it, except a vault that cannot be opened, which has nothing to
//! type.
use vstd::prelude::*;
use vstd::utf8::encode_utf8;
use crate::chars::{contains_seq, find_from, lemma_contains_iff_found, lit};
use crate::entry::{decimal, dec_digits};
use crate::platform::{
    description, desktop_supported, manager_name, PackageManager, Platform,
};
use crate::text::{chars_of, own, push_str, sb, str_eq, string_of};

verus! {

#[derive(Debug, Clone, Copy, PartialEq, Eq, Structural, PartialOrd, Ord)]
pub enum Level {
    Okay,
    /// Works, but something is degraded or a later phase will need it.
    Warn,
    /// This mode cannot run.
    Fail,
}

/// How bad a level is: `Ok` < `Warn` < `Fail`.
pub open spec fn rank(l: Level) -> nat {
    match l {
        Level::Okay => 0,
        Level::Warn => 1,
        Level::Fail => 2,
    }
}

pub open spec fn glyph_text(l: Level) -> Seq<char> {
    match l {
        Level::Okay => "OK  "@,
        Level::Warn => "WARN"@,
        Level::Fail => "FAIL"@,
    }
}

impl Level {
    pub fn glyph(self) -> (r: &'static str)
        ensures
            r@ == glyph_text(self),
    {
        match self {
            Level::Okay => "OK  ",
            Level::Warn => "WARN",
            Level::Fail => "FAIL",
        }
    }

    fn rank_of(self) -> (r: u8)
        ensures
            r == rank(self),
    {
        match self {
            Level::Okay => 0,
            Level::Warn => 1,
            Level::Fail => 2,
        }
    }
}

#[derive(Debug, Clone, PartialEq, Eq)]
pub struct Check {
    pub name: String,
    pub level: Level,
    pub detail: String,
    /// What to type; `None` when there is nothing to fix.
    pub fix: Option<String>,
}

impl Check {
    pub fn ok(name: &str, detail: &str) -> (r: Check)
        ensures
            r.name@ == name@,
            r.level == Level::Okay,
            r.detail@ == detail@,
            r.fix is None,
    {
        Check { name: own(name), level: Level::Okay, detail: own(detail), fix: None }
    }

    pub fn warn(name: &str, detail: &str, fix: Option<String>) -> (r: Check)
        ensures
            r.name@ == name@,
            r.level == Level::Warn,
            r.detail@ == detail@,
            r.fix == fix,
    {
        Check { name: own(name), level: Level::Warn, detail: own(detail), fix }
    }

    pub fn fail(name: &str, detail: &str, fix: Option<String>) -> (r: Check)
        ensures
            r.name@ == name@,
            r.level == Level::Fail,
            r.detail@ == detail@,
            r.fix == fix,
    {
        Check { name: own(name), level: Level::Fail, detail: own(detail), fix }
    }
}

/// A check that either passes or names a fix.
pub open spec fn offers_fix(c: Check) -> bool {
    c.level != Level::Okay ==> c.fix is Some
}

#[derive(Debug, Clone)]
pub struct Report {
    pub platform: Platform,
    pub checks: Vec<Check>,
}

/// The worst level among some checks; `Ok` when there are none.
pub open spec fn worst_of(cs: Seq<Check>) -> Level
    decreases cs.len(),
{
    if cs.len() == 0 {
        Level::Okay
    } else {
        let w = worst_of(cs.drop_last());
        if rank(cs.last().level) > rank(w) {
            cs.last().level
        } else {
            w
        }
    }
}

/// The number of bytes in the longest check name.
pub open spec fn name_width(cs: Seq<Check>) -> nat
    decreases cs.len(),
{
    if cs.len() == 0 {
        0
    } else {
        let w = name_width(cs.drop_last());
        let n = encode_utf8(cs.last().name@).len();
        if n > w {
            n
        } else {
            w
        }
    }
}

pub open spec fn spaces(n: int) -> Seq<char> {
    Seq::new(if n > 0 {
        n as nat
    } else {
        0
    }, |i: int| ' ')
}

/// `{:width$}`: the text, then spaces up to `width` characters.
pub open spec fn padded(s: Seq<char>, width: nat) -> Seq<char> {
    s + spaces(width - s.len())
}

pub open spec fn check_text(c: Check, width: nat) -> Seq<char> {
    "  "@ + glyph_text(c.level) + " "@ + padded(c.name@, width) + "  "@ + c.detail@ + "\n"@ + (
    match c.fix {
        Some(f) => "       "@ + spaces(width as int) + "  -> "@ + f@ + "\n"@,
        None => seq![],
    })
}

pub open spec fn checks_text(cs: Seq<Check>, width: nat) -> Seq<char>
    decreases cs.len(),
{
    if cs.len() == 0 {
        seq![]
    } else {
        checks_text(cs.drop_last(), width) + check_text(cs.last(), width)
    }
}

pub open spec fn verdict(l: Level) -> Seq<char> {
    match l {
        Level::Okay => "  Everything checks out.\n"@,
        Level::Warn => "  Usable now; the warnings above matter for later phases.\n"@,
        Level::Fail => "  Something above must be fixed before ARC-LABS will run.\n"@,
    }
}

/// The report as the terminal shows it.
pub open spec fn report_text(r: Report) -> Seq<char> {
    "ARC-LABS doctor\n"@ + "  platform        "@ + description(r.platform) + "\n"@
        + "  package manager "@ + manager_name(r.platform.package_manager) + "\n"@
        + "  desktop shell   "@ + (if desktop_supported(r.platform) {
        "supported"@
    } else {
        "not available"@
    }) + "\n"@ + "\n"@ + checks_text(r.checks@, name_width(r.checks@)) + "\n"@ + verdict(
        worst_of(r.checks@),
    )
}

fn push_spaces(out: &mut String, n: usize)
    ensures
        final(out)@ == old(out)@ + spaces(n as int),
{
    let ghost before = out@;
    let mut i: usize = 0;
    while i < n
        invariant
            0 <= i <= n,
            out@ == before + spaces(i as int),
        decreases n - i,
    {
        push_str(out, " ");
        proof {
            reveal_strlit(" ");
        }
        i = i + 1;
        assert(out@ =~= before + spaces(i as int));
    }
}

fn push_check(out: &mut String, c: &Check, width: usize)
    ensures
        final(out)@ == old(out)@ + check_text(*c, width as nat),
{
    let ghost before = out@;
    push_str(out, "  ");
    push_str(out, c.level.glyph());
    push_str(out, " ");
    push_str(out, c.name.as_str());
    let count = chars_of(c.name.as_str()).len();
    if count < width {
        push_spaces(out, width - count);
    }
    push_str(out, "  ");
    push_str(out, c.detail.as_str());
    push_str(out, "\n");
    let ghost line = out@;
    if let Some(fix) = &c.fix {
        push_str(out, "       ");
        push_spaces(out, width);
        push_str(out, "  -> ");
        push_str(out, fix.as_str());
        push_str(out, "\n");
    }
    proof {
        reveal_strlit("  ");
        reveal_strlit(" ");
        reveal_strlit("\n");
        reveal_strlit("       ");
        reveal_strlit("  -> ");
        if count >= width {
            assert(spaces(width - c.name@.len()) =~= Seq::<char>::empty());
        }
        assert(line =~= before + "  "@ + glyph_text(c.level) + " "@ + padded(c.name@, width as nat)
            + "  "@ + c.detail@ + "\n"@);
        assert(out@ =~= before + check_text(*c, width as nat));
    }
}

impl Report {
    pub fn worst(&self) -> (r: Level)
        ensures
            r == worst_of(self.checks@),
    {
        let mut w = Level::Okay;
        let mut i: usize = 0;
        while i < self.checks.len()
            invariant
                0 <= i <= self.checks@.len(),
                w == worst_of(self.checks@.take(i as int)),
            decreases self.checks@.len() - i,
        {
            let l = self.checks[i].level;
            assert(self.checks@.take(i + 1).drop_last() =~= self.checks@.take(i as int));
            if l.rank_of() > w.rank_of() {
                w = l;
            }
            i = i + 1;
        }
        assert(self.checks@.take(i as int) =~= self.checks@);
        w
    }

    /// Non-zero exit only when something is actually broken: a warning is
    /// not a failure.
    pub fn exit_code(&self) -> (r: i32)
        ensures
            r == (if worst_of(self.checks@) == Level::Fail {
                1i32
            } else {
                0i32
            }),
    {
        if self.worst() == Level::Fail {
            1
        } else {
            0
        }
    }

    pub fn render(&self) -> (r: String)
        ensures
            r@ == report_text(*self),
    {
        let mut out = String::new();
        push_str(&mut out, "ARC-LABS doctor\n");
        push_str(&mut out, "  platform        ");
        let d = self.platform.describe();
        push_str(&mut out, d.as_str());
        push_str(&mut out, "\n");
        push_str(&mut out, "  package manager ");
        push_str(&mut out, self.platform.package_manager.as_str());
        push_str(&mut out, "\n");
        push_str(&mut out, "  desktop shell   ");
        if self.platform.supports_desktop_shell() {
            push_str(&mut out, "supported");
        } else {
            push_str(&mut out, "not available");
        }
        push_str(&mut out, "\n");
        push_str(&mut out, "\n");
        let ghost head = out@;
        let mut width: usize = 0;
        let mut i: usize = 0;
        while i < self.checks.len()
            invariant
                0 <= i <= self.checks@.len(),
                width == name_width(self.checks@.take(i as int)),
            decreases self.checks@.len() - i,
        {
            assert(self.checks@.take(i + 1).drop_last() =~= self.checks@.take(i as int));
            assert(self.checks@.take(i + 1).last() == self.checks@[i as int]);
            let name = self.checks[i].name.as_str();
            let n = name.as_bytes().len();
            assert(name@ == self.checks@[i as int].name@);
            assert(n == encode_utf8(self.checks@[i as int].name@).len());
            if n > width {
                width = n;
            }
            i = i + 1;
        }
        assert(self.checks@.take(i as int) =~= self.checks@);
        let mut j: usize = 0;
        while j < self.checks.len()
            invariant
                0 <= j <= self.checks@.len(),
                width == name_width(self.checks@),
                out@ == head + checks_text(self.checks@.take(j as int), width as nat),
            decreases self.checks@.len() - j,
        {
            let c = &self.checks[j];
            push_check(&mut out, c, width);
            assert(self.checks@.take(j + 1).drop_last() =~= self.checks@.take(j as int));
            assert(self.checks@.take(j + 1).last() == *c);
            j = j + 1;
        }
        assert(self.checks@.take(j as int) =~= self.checks@);
        push_str(&mut out, "\n");
        match self.worst() {
            Level::Okay => push_str(&mut out, "  Everything checks out.\n"),
            Level::Warn => push_str(
                &mut out,
                "  Usable now; the warnings above matter for later phases.\n",
            ),
            Level::Fail => push_str(
                &mut out,
                "  Something above must be fixed before ARC-LABS will run.\n",
            ),
        }
        assert(out@ =~= report_text(*self));
        out
    }
}

/// The webview check, given whether the webview runtime (on Windows) or the
/// webkit2gtk library (on Linux) was found. Elsewhere the system webview is
/// assumed, and a Linux machine without a desktop needs none.
pub fn webview_check(p: &Platform, found: bool) -> (r: Check)
    ensures
        offers_fix(r),
        r.level == (match p.os {
            crate::platform::Os::Windows => if found {
                Level::Okay
            } else {
                Level::Fail
            },
            crate::platform::Os::Linux => if !desktop_supported(*p) || found {
                Level::Okay
            } else {
                Level::Fail
            },
            _ => Level::Okay,
        }),
{
    match p.os {
        crate::platform::Os::Windows => {
            if found {
                Check::ok("webview2", "installed")
            } else {
                Check::fail(
                    "webview2",
                    "not found; the desktop window will render blank",
                    Some(own("winget install -e --id Microsoft.EdgeWebView2Runtime")),
                )
            }
        },
        crate::platform::Os::Linux => {
            if !p.supports_desktop_shell() {
                return Check::ok("webview", "not needed \u{2014} use `arc-labs serve` and a browser");
            }
            if found {
                Check::ok("webkit2gtk", "found")
            } else {
                Check::fail(
                    "webkit2gtk",
                    "libwebkit2gtk-4.1 not found; the desktop shell cannot start",
                    Some(own("arc-labs setup")),
                )
            }
        },
        _ => Check::ok("webview", "system webview assumed"),
    }
}

/// A build tool's check: found on `PATH` at some location, or a warning,
/// since only a build from source needs it.
pub fn toolchain_check(bin: &str, found_at: Option<&str>) -> (r: Check)
    ensures
        offers_fix(r),
        r.name@ == bin@,
        r.level == (if found_at is Some {
            Level::Okay
        } else {
            Level::Warn
        }),
        found_at matches Some(at) ==> r.detail@ == at@,
        found_at is None ==> r.detail@ == "not on PATH (only needed to build from source)"@ && (r.fix matches Some(
            f,
        ) && f@ == "arc-labs setup"@),
{
    match found_at {
        Some(at) => Check::ok(bin, at),
        None => Check::warn(
            bin,
            "not on PATH (only needed to build from source)",
            Some(own("arc-labs setup")),
        ),
    }
}

/// An endpoint as `host:port`: whitespace, one `http://` or `https://`
/// prefix and trailing `/`s removed, and Ollama's port when none is given.
pub open spec fn strip_scheme(s: Seq<char>) -> Seq<char> {
    let a = if s.len() >= 7 && s.take(7) == "http://"@ {
        s.skip(7)
    } else {
        s
    };
    if a.len() >= 8 && a.take(8) == "https://"@ {
        a.skip(8)
    } else {
        a
    }
}

pub open spec fn strip_slashes(s: Seq<char>) -> Seq<char>
    decreases s.len(),
{
    if s.len() > 0 && s.last() == '/' {
        strip_slashes(s.drop_last())
    } else {
        s
    }
}

pub open spec fn host_port(endpoint: Seq<char>) -> Seq<char> {
    let h = strip_slashes(strip_scheme(crate::text::trim(endpoint)));
    if h.contains(':') {
        h
    } else {
        h + ":11434"@
    }
}

fn strip_prefix_lit(s: Vec<char>, p: &str) -> (r: Vec<char>)
    ensures
        r@ == (if s@.len() >= p@.len() && s@.take(p@.len() as int) == p@ {
            s@.skip(p@.len() as int)
        } else {
            s@
        }),
{
    let pc = lit(p);
    if s.len() >= pc.len() {
        let mut same = true;
        let mut i: usize = 0;
        while i < pc.len()
            invariant
                s@.len() >= pc@.len(),
                0 <= i <= pc@.len(),
                same == (forall|k: int| 0 <= k < i ==> s@[k] == pc@[k]),
            decreases pc@.len() - i,
        {
            if s[i] != pc[i] {
                same = false;
            }
            i = i + 1;
        }
        if same {
            assert(s@.take(pc@.len() as int) =~= pc@);
            let r = crate::chars::slice_of(s.as_slice(), pc.len(), s.len());
            assert(r@ =~= s@.skip(pc@.len() as int));
            return r;
        } else {
            assert(s@.take(pc@.len() as int) != pc@) by {
                let k = choose|k: int| 0 <= k < i && s@[k] != pc@[k];
                assert(s@.take(pc@.len() as int)[k] == s@[k]);
            }
        }
    }
    s
}

/// Where Ollama's endpoint is probed.
#[verifier::rlimit(80)]
#[verifier::spinoff_prover]
pub fn endpoint_hostport(endpoint: &str) -> (r: String)
    ensures
        r@ == host_port(endpoint@),
{
    proof {
        reveal_strlit("http://");
        reveal_strlit("https://");
        reveal_strlit(":11434");
    }
    let cs = chars_of(endpoint);
    let t = crate::chars::trimmed(cs.as_slice());
    let a = strip_prefix_lit(t, "http://");
    let b = strip_prefix_lit(a, "https://");
    let mut n = b.len();
    assert(b@.take(b@.len() as int) =~= b@);
    while n > 0 && b[n - 1] == '/'
        invariant
            0 <= n <= b@.len(),
            strip_slashes(b@) == strip_slashes(b@.take(n as int)),
        decreases n,
    {
        assert(b@.take(n as int).drop_last() =~= b@.take(n - 1));
        n = n - 1;
    }
    assert(b@.take(b@.len() as int) =~= b@);
    let h = crate::chars::slice_of(b.as_slice(), 0, n);
    assert(h@ =~= strip_slashes(b@)) by {
        assert(h@ =~= b@.take(n as int));
    }
    let mut has_colon = false;
    let mut i: usize = 0;
    while i < h.len()
        invariant
            0 <= i <= h@.len(),
            has_colon == (exists|k: int| 0 <= k < i && h@[k] == ':'),
        decreases h@.len() - i,
    {
        if h[i] == ':' {
            has_colon = true;
        }
        i = i + 1;
    }
    let mut out = h;
    if !has_colon {
        assert(!h@.contains(':'));
        out.push(':');
        out.push('1');
        out.push('1');
        out.push('4');
        out.push('3');
        out.push('4');
    } else {
        proof {
            let k = choose|k: int| 0 <= k < h@.len() && h@[k] == ':';
            assert(h@[k] == ':');
        }
    }
    assert(out@ =~= host_port(endpoint@));
    string_of(out.as_slice())
}

/// Ollama's check, given what probing the endpoint reported.
pub fn ollama_check(endpoint: &str, probe: Result<(), String>) -> (r: Check)
    ensures
        offers_fix(r),
        r.name@ == "ollama"@,
        r.level == (if probe is Ok {
            Level::Okay
        } else {
            Level::Warn
        }),
        probe is Ok ==> r.detail@ == "reachable at "@ + endpoint@,
        probe matches Err(reason) ==> r.detail@ == "not reachable at "@ + endpoint@ + " ("@
            + reason@ + "); needed from Phase 5"@,
{
    match probe {
        Ok(()) => {
            let mut d = own("reachable at ");
            push_str(&mut d, endpoint);
            Check { name: own("ollama"), level: Level::Okay, detail: d, fix: None }
        },
        Err(reason) => {
            let mut d = own("not reachable at ");
            push_str(&mut d, endpoint);
            push_str(&mut d, " (");
            push_str(&mut d, reason.as_str());
            push_str(&mut d, "); needed from Phase 5");
            Check {
                name: own("ollama"),
                level: Level::Warn,
                detail: d,
                fix: Some(own("start Ollama, or set model.endpoint in config.toml")),
            }
        },
    }
}

/// The vault check when no vault is configured.
pub fn no_vault_check() -> (r: Check)
    ensures
        offers_fix(r),
        r.name@ == "vault"@,
        r.level == Level::Warn,
{
    Check::warn("vault", "none configured", Some(own("arc-labs --vault <path>")))
}

/// The vault check for a vault that opened and scanned.
pub fn vault_counts_check(name: &str, notes: usize, canvases: usize) -> (r: Check)
    ensures
        r.name@ == "vault"@,
        r.level == Level::Okay,
        r.detail@ == name@ + " \u{2014} "@ + dec_digits(notes as nat) + " notes, "@ + dec_digits(
            canvases as nat,
        ) + " canvases"@,
{
    let mut d = own(name);
    push_str(&mut d, " \u{2014} ");
    let n = decimal(notes as u64);
    push_str(&mut d, n.as_str());
    push_str(&mut d, " notes, ");
    let c = decimal(canvases as u64);
    push_str(&mut d, c.as_str());
    push_str(&mut d, " canvases");
    Check { name: own("vault"), level: Level::Okay, detail: d, fix: None }
}

/// The vault check for a vault that could not be opened, or not scanned;
/// `message` is the error's public form, so the path is never echoed.
pub fn vault_failed_check(message: &str, scanning: bool) -> (r: Check)
    ensures
        r.name@ == "vault"@,
        r.level == Level::Fail,
        r.fix is None,
        r.detail@ == (if scanning {
            "cannot scan: "@ + message@
        } else {
            message@
        }),
{
    if scanning {
        let mut d = own("cannot scan: ");
        push_str(&mut d, message);
        Check { name: own("vault"), level: Level::Fail, detail: d, fix: None }
    } else {
        Check::fail("vault", message, None)
    }
}

/// Some check with this name is not `Ok`.
pub open spec fn failing(cs: Seq<Check>, name: Seq<char>) -> bool {
    exists|i: int| 0 <= i < cs.len() && cs[i].name@ == name && cs[i].level != Level::Okay
}

fn is_failing(cs: &Vec<Check>, name: &str) -> (r: bool)
    ensures
        r == failing(cs@, name@),
{
    let mut i: usize = 0;
    while i < cs.len()
        invariant
            0 <= i <= cs@.len(),
            forall|k: int| 0 <= k < i ==> !(cs@[k].name@ == name@ && cs@[k].level != Level::Okay),
        decreases cs@.len() - i,
    {
        if str_eq(cs[i].name.as_str(), name) && cs[i].level != Level::Okay {
            return true;
        }
        i = i + 1;
    }
    false
}

/// The packages setup would install, by package manager and by which checks
/// are not `Ok`.
pub open spec fn packages_for(pm: PackageManager, cs: Seq<Check>) -> Seq<Seq<char>> {
    let webkit = failing(cs, "webkit2gtk"@);
    let node = failing(cs, "node"@) || failing(cs, "npm"@);
    match pm {
        PackageManager::Apt => (if webkit {
            seq![
                "libwebkit2gtk-4.1-dev"@,
                "libayatana-appindicator3-dev"@,
                "librsvg2-dev"@,
                "build-essential"@,
                "pkg-config"@,
                "libssl-dev"@,
            ]
        } else {
            seq![]
        }) + (if node {
            seq!["nodejs"@, "npm"@]
        } else {
            seq![]
        }),
        PackageManager::Dnf => (if webkit {
            seq![
                "webkit2gtk4.1-devel"@,
                "libappindicator-gtk3-devel"@,
                "librsvg2-devel"@,
                "openssl-devel"@,
            ]
        } else {
            seq![]
        }) + (if node {
            seq!["nodejs"@]
        } else {
            seq![]
        }),
        PackageManager::Pacman => (if webkit {
            seq!["webkit2gtk-4.1"@, "libappindicator-gtk3"@, "librsvg"@, "openssl"@]
        } else {
            seq![]
        }) + (if node {
            seq!["nodejs"@, "npm"@]
        } else {
            seq![]
        }),
        PackageManager::Winget => (if failing(cs, "webview2"@) {
            seq!["Microsoft.EdgeWebView2Runtime"@]
        } else {
            seq![]
        }) + (if node {
            seq!["OpenJS.NodeJS.LTS"@]
        } else {
            seq![]
        }) + (if failing(cs, "cargo"@) {
            seq!["Rustlang.Rustup"@]
        } else {
            seq![]
        }),
        _ => seq![],
    }
}

pub open spec fn static_views(v: Seq<&'static str>) -> Seq<Seq<char>> {
    v.map_values(|s: &'static str| s@)
}

fn push_static(v: &mut Vec<&'static str>, items: &[&'static str])
    ensures
        static_views(final(v)@) == static_views(old(v)@) + static_views(items@),
{
    let ghost before = static_views(v@);
    let mut i: usize = 0;
    while i < items.len()
        invariant
            0 <= i <= items.len(),
            static_views(v@) == before + static_views(items@.take(i as int)),
        decreases items.len() - i,
    {
        let ghost prev = v@;
        v.push(items[i]);
        assert(static_views(v@) =~= static_views(prev).push(items@[i as int]@));
        assert(static_views(items@.take(i + 1)) =~= static_views(items@.take(i as int)).push(
            items@[i as int]@,
        ));
        i = i + 1;
    }
    assert(items@.take(items.len() as int) =~= items@);
}

/// The packages setup would install here, if any.
pub fn missing_packages(report: &Report) -> (r: Vec<&'static str>)
    ensures
        static_views(r@) == packages_for(report.platform.package_manager, report.checks@),
{
    let cs = &report.checks;
    let webkit = is_failing(cs, "webkit2gtk");
    let node = is_failing(cs, "node") || is_failing(cs, "npm");
    let mut pkgs: Vec<&'static str> = Vec::new();
    let ghost pm = report.platform.package_manager;
    match report.platform.package_manager {
        PackageManager::Apt => {
            if webkit {
                push_static(
                    &mut pkgs,
                    &[
                        "libwebkit2gtk-4.1-dev",
                        "libayatana-appindicator3-dev",
                        "librsvg2-dev",
                        "build-essential",
                        "pkg-config",
                        "libssl-dev",
                    ],
                );
            }
            if node {
                push_static(&mut pkgs, &["nodejs", "npm"]);
            }
        },
        PackageManager::Dnf => {
            if webkit {
                push_static(
                    &mut pkgs,
                    &[
                        "webkit2gtk4.1-devel",
                        "libappindicator-gtk3-devel",
                        "librsvg2-devel",
                        "openssl-devel",
                    ],
                );
            }
            if node {
                push_static(&mut pkgs, &["nodejs"]);
            }
        },
        PackageManager::Pacman => {
            if webkit {
                push_static(&mut pkgs, &["webkit2gtk-4.1", "libappindicator-gtk3", "librsvg", "openssl"]);
            }
            if node {
                push_static(&mut pkgs, &["nodejs", "npm"]);
            }
        },
        PackageManager::Winget => {
            if is_failing(cs, "webview2") {
                push_static(&mut pkgs, &["Microsoft.EdgeWebView2Runtime"]);
            }
            if node {
                push_static(&mut pkgs, &["OpenJS.NodeJS.LTS"]);
            }
            if is_failing(cs, "cargo") {
                push_static(&mut pkgs, &["Rustlang.Rustup"]);
            }
        },
        _ => {},
    }
    assert(static_views(pkgs@) =~= packages_for(pm, cs@));
    pkgs
}

/// The worst level is `Fail` exactly when some check failed: warnings
/// alone never fail the exit code, and one failure always does.
pub proof fn law_exit_code_fails_exactly_on_a_failure(cs: Seq<Check>)
    ensures
        (worst_of(cs) == Level::Fail) <==> (exists|i: int|
            0 <= i < cs.len() && #[trigger] cs[i].level == Level::Fail),
    decreases cs.len(),
{
    if cs.len() > 0 {
        law_exit_code_fails_exactly_on_a_failure(cs.drop_last());
        let d = cs.drop_last();
        if exists|i: int| 0 <= i < d.len() && #[trigger] d[i].level == Level::Fail {
            let i = choose|i: int| 0 <= i < d.len() && #[trigger] d[i].level == Level::Fail;
            assert(cs[i] == d[i]);
        }
        if exists|i: int| 0 <= i < cs.len() && #[trigger] cs[i].level == Level::Fail {
            let i = choose|i: int| 0 <= i < cs.len() && #[trigger] cs[i].level == Level::Fail;
            if i < cs.len() - 1 {
                assert(d[i] == cs[i]);
            }
        }
    }
}

/// What a build tool's check can be: found somewhere, or the warning that
/// it is missing with `arc-labs setup` as the fix.
pub open spec fn toolchain_outcome(bin: Seq<char>, c: Check) -> bool {
    &&& c.name@ == bin
    &&& c.level == Level::Okay || (c.level == Level::Warn && c.detail@
        == "not on PATH (only needed to build from source)"@ && (c.fix matches Some(f) && f@
        == "arc-labs setup"@))
}

/// The build tools a build from source needs, each looked up on `PATH`:
/// `cargo`, `node` and `npm`, in that order. Which are found depends on the
/// machine; a missing one is a warning, since a packaged binary needs none.
pub fn check_toolchain() -> (r: Vec<Check>)
    ensures
        r@.len() == 3,
        toolchain_outcome("cargo"@, r@[0]),
        toolchain_outcome("node"@, r@[1]),
        toolchain_outcome("npm"@, r@[2]),
{
    let mut out: Vec<Check> = Vec::new();
    out.push(probe_tool("cargo"));
    out.push(probe_tool("node"));
    out.push(probe_tool("npm"));
    out
}

fn probe_tool(bin: &str) -> (r: Check)
    ensures
        toolchain_outcome(bin@, r),
{
    match crate::platform::on_path(bin) {
        Some(at) => toolchain_check(bin, Some(at.as_str())),
        None => toolchain_check(bin, None),
    }
}

} // verus!
