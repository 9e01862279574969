//! What machine this is, and how software gets installed on it.
//!
//! Reading the environment and the files under `/etc` and `/proc` is the
//! shell's job; what those readings mean is decided here.
use vstd::prelude::*;
use crate::chars::{
    contains_seq, find_from, lemma_contains_iff_found, lemma_line_end, line_end, line_text, lit,
    slice_of,
};
use crate::text::{chars_of, lowercase, own, push_str, string_of, to_lower};

verus! {

#[derive(Debug, Clone, Copy, PartialEq, Eq, Structural)]
pub enum Os {
    Windows,
    Linux,
    Mac,
    Other,
}

pub open spec fn os_name(os: Os) -> Seq<char> {
    match os {
        Os::Windows => "Windows"@,
        Os::Linux => "Linux"@,
        Os::Mac => "macOS"@,
        Os::Other => "unknown"@,
    }
}

impl Os {
    /// The OS named the way `std::env::consts::OS` names it.
    pub fn from_name(name: &str) -> (r: Os)
        ensures
            r == (if name@ == "windows"@ {
                Os::Windows
            } else if name@ == "linux"@ {
                Os::Linux
            } else if name@ == "macos"@ {
                Os::Mac
            } else {
                Os::Other
            }),
    {
        if crate::text::str_eq(name, "windows") {
            Os::Windows
        } else if crate::text::str_eq(name, "linux") {
            Os::Linux
        } else if crate::text::str_eq(name, "macos") {
            Os::Mac
        } else {
            Os::Other
        }
    }

    pub fn as_str(self) -> (r: &'static str)
        ensures
            r@ == os_name(self),
    {
        match self {
            Os::Windows => "Windows",
            Os::Linux => "Linux",
            Os::Mac => "macOS",
            Os::Other => "unknown",
        }
    }
}

/// How to install a system package here.
#[derive(Debug, Clone, Copy, PartialEq, Eq, Structural)]
pub enum PackageManager {
    Apt,
    Dnf,
    Pacman,
    Zypper,
    Apk,
    Winget,
    Brew,
    /// No known package manager was found.
    Unavailable,
}

pub open spec fn manager_name(pm: PackageManager) -> Seq<char> {
    match pm {
        PackageManager::Apt => "apt"@,
        PackageManager::Dnf => "dnf"@,
        PackageManager::Pacman => "pacman"@,
        PackageManager::Zypper => "zypper"@,
        PackageManager::Apk => "apk"@,
        PackageManager::Winget => "winget"@,
        PackageManager::Brew => "brew"@,
        PackageManager::Unavailable => "none"@,
    }
}

/// The argv every install command for a manager starts with.
pub open spec fn install_prefix(pm: PackageManager) -> Seq<Seq<char>> {
    match pm {
        PackageManager::Apt => seq!["sudo"@, "apt-get"@, "install"@, "-y"@],
        PackageManager::Dnf => seq!["sudo"@, "dnf"@, "install"@, "-y"@],
        PackageManager::Pacman => seq!["sudo"@, "pacman"@, "-S"@, "--needed"@, "--noconfirm"@],
        PackageManager::Zypper => seq!["sudo"@, "zypper"@, "install"@, "-y"@],
        PackageManager::Apk => seq!["sudo"@, "apk"@, "add"@],
        PackageManager::Winget => seq![
            "winget"@,
            "install"@,
            "--accept-package-agreements"@,
            "--accept-source-agreements"@,
            "-e"@,
            "--id"@,
        ],
        PackageManager::Brew => seq!["brew"@, "install"@],
        PackageManager::Unavailable => seq![],
    }
}

/// The binary whose presence on `PATH` shows the manager is here, in the
/// order they are looked for.
pub open spec fn probe_order() -> Seq<PackageManager> {
    seq![
        PackageManager::Apt,
        PackageManager::Dnf,
        PackageManager::Pacman,
        PackageManager::Zypper,
        PackageManager::Apk,
        PackageManager::Winget,
        PackageManager::Brew,
    ]
}

pub open spec fn views(v: Seq<String>) -> Seq<Seq<char>> {
    v.map_values(|s: String| s@)
}

pub open spec fn str_views(v: Seq<&str>) -> Seq<Seq<char>> {
    v.map_values(|s: &str| s@)
}

/// Where a binary of this name is on `PATH` (`which::which`), shown as a
/// path; none when it is not found.
///
/// Trusted: nothing is claimed of the answer, which depends on the machine.
#[verifier::external_body]
pub(crate) fn on_path(bin: &str) -> (r: Option<String>) {
    which::which(bin).ok().map(|p| p.display().to_string())
}

fn push_all_str(out: &mut Vec<String>, items: &[&str])
    ensures
        views(final(out)@) == views(old(out)@) + str_views(items@),
{
    let ghost before = views(out@);
    let mut i: usize = 0;
    while i < items.len()
        invariant
            0 <= i <= items.len(),
            views(out@) == before + str_views(items@.take(i as int)),
        decreases items.len() - i,
    {
        let ghost prev = out@;
        let s = own(items[i]);
        out.push(s);
        assert(views(out@) =~= views(prev).push(items@[i as int]@));
        assert(str_views(items@.take(i + 1)) =~= str_views(items@.take(i as int)).push(
            items@[i as int]@,
        ));
        i = i + 1;
        assert(views(out@) =~= before + str_views(items@.take(i as int)));
    }
    assert(items@.take(items.len() as int) =~= items@);
}

/// The manager a probe finds: the first in `probe_order` whose probe answered
/// yes, looking at no more probes than were made, and none when no probe did.
pub open spec fn first_found_from(found: Seq<bool>, i: int) -> PackageManager
    decreases 7 - i,
{
    if i < 0 || i >= 7 || i >= found.len() {
        PackageManager::Unavailable
    } else if found[i] {
        probe_order()[i]
    } else {
        first_found_from(found, i + 1)
    }
}

pub open spec fn first_found(found: Seq<bool>) -> PackageManager {
    first_found_from(found, 0)
}

impl PackageManager {
    /// Which manager the probes found, given whether each binary of
    /// `probe_order` was on `PATH`, in that order.
    pub fn first_present(found: &[bool]) -> (r: PackageManager)
        ensures
            r == first_found(found@),
    {
        let order: [PackageManager; 7] = [
            PackageManager::Apt,
            PackageManager::Dnf,
            PackageManager::Pacman,
            PackageManager::Zypper,
            PackageManager::Apk,
            PackageManager::Winget,
            PackageManager::Brew,
        ];
        assert(order@ =~= probe_order());
        let mut i: usize = 0;
        while i < 7 && i < found.len()
            invariant
                0 <= i <= 7,
                order@ == probe_order(),
                first_found(found@) == first_found_from(found@, i as int),
            decreases 7 - i,
        {
            if found[i] {
                return order[i];
            }
            i = i + 1;
        }
        PackageManager::Unavailable
    }

    /// The first manager whose binary is on `PATH`, probing apt-get, dnf,
    /// pacman, zypper, apk, winget and brew in that order and stopping at the
    /// first found.
    ///
    /// Which one that is depends on the machine, so any manager, or none, can
    /// come back; what is made of the probes is `first_present`.
    pub fn detect() -> (r: PackageManager)
        ensures
            r == PackageManager::Unavailable || probe_order().contains(r),
    {
        let order: [PackageManager; 7] = [
            PackageManager::Apt,
            PackageManager::Dnf,
            PackageManager::Pacman,
            PackageManager::Zypper,
            PackageManager::Apk,
            PackageManager::Winget,
            PackageManager::Brew,
        ];
        let mut found: Vec<bool> = Vec::new();
        let mut i: usize = 0;
        while i < 7
            invariant
                0 <= i <= 7,
            decreases 7 - i,
        {
            let yes = on_path(order[i].probe_binary()).is_some();
            found.push(yes);
            if yes {
                break;
            }
            i = i + 1;
        }
        let r = PackageManager::first_present(found.as_slice());
        proof {
            lemma_first_found_is_listed(found@, 0);
        }
        r
    }

    /// The binary that shows this manager is installed.
    pub fn probe_binary(self) -> (r: &'static str)
        ensures
            r@ == (match self {
                PackageManager::Apt => "apt-get"@,
                _ => manager_name(self),
            }),
    {
        match self {
            PackageManager::Apt => "apt-get",
            PackageManager::Dnf => "dnf",
            PackageManager::Pacman => "pacman",
            PackageManager::Zypper => "zypper",
            PackageManager::Apk => "apk",
            PackageManager::Winget => "winget",
            PackageManager::Brew => "brew",
            PackageManager::Unavailable => "none",
        }
    }

    pub fn as_str(self) -> (r: &'static str)
        ensures
            r@ == manager_name(self),
    {
        match self {
            PackageManager::Apt => "apt",
            PackageManager::Dnf => "dnf",
            PackageManager::Pacman => "pacman",
            PackageManager::Zypper => "zypper",
            PackageManager::Apk => "apk",
            PackageManager::Winget => "winget",
            PackageManager::Brew => "brew",
            PackageManager::Unavailable => "none",
        }
    }

    /// The command that installs `packages`, as argv; returned rather than
    /// run, so a diagnosis can print exactly what setup would do.
    pub fn install_command(self, packages: &[&str]) -> (r: Option<Vec<String>>)
        ensures
            match r {
                Some(cmd) => self != PackageManager::Unavailable && views(cmd@) == install_prefix(self)
                    + str_views(packages@),
                None => self == PackageManager::Unavailable,
            },
    {
        let prefix: &[&str] = match self {
            PackageManager::Apt => &["sudo", "apt-get", "install", "-y"],
            PackageManager::Dnf => &["sudo", "dnf", "install", "-y"],
            PackageManager::Pacman => &["sudo", "pacman", "-S", "--needed", "--noconfirm"],
            PackageManager::Zypper => &["sudo", "zypper", "install", "-y"],
            PackageManager::Apk => &["sudo", "apk", "add"],
            PackageManager::Winget => &[
                "winget",
                "install",
                "--accept-package-agreements",
                "--accept-source-agreements",
                "-e",
                "--id",
            ],
            PackageManager::Brew => &["brew", "install"],
            PackageManager::Unavailable => {
                return None;
            },
        };
        assert(str_views(prefix@) =~= install_prefix(self));
        let mut cmd: Vec<String> = Vec::new();
        push_all_str(&mut cmd, prefix);
        push_all_str(&mut cmd, packages);
        assert(views(cmd@) =~= install_prefix(self) + str_views(packages@));
        Some(cmd)
    }
}

/// Everything detected about the machine.
#[derive(Debug, Clone, PartialEq, Eq)]
pub struct Platform {
    pub os: Os,
    pub arch: String,
    /// Distro id from `/etc/os-release`, e.g. `ubuntu`. Linux only.
    pub distro: Option<String>,
    pub distro_name: Option<String>,
    pub package_manager: PackageManager,
    /// True inside a container: there is no desktop shell to install for.
    pub in_container: bool,
    /// True under WSL: a GUI needs WSLg.
    pub in_wsl: bool,
    /// True when a graphical display was found (`DISPLAY` or `WAYLAND_DISPLAY`).
    pub display: bool,
}

pub open spec fn desktop_supported(p: Platform) -> bool {
    match p.os {
        Os::Windows | Os::Mac => true,
        Os::Linux => !p.in_container && p.display,
        Os::Other => false,
    }
}

pub open spec fn description(p: Platform) -> Seq<char> {
    (match p.distro_name {
        Some(n) => n@,
        None => os_name(p.os),
    }) + " ("@ + p.arch@ + (if p.in_wsl {
        ", WSL"@
    } else {
        seq![]
    }) + (if p.in_container {
        ", container"@
    } else {
        seq![]
    }) + ")"@
}

impl Platform {
    /// Whether a windowed desktop build can run here at all. A container, or
    /// a Linux machine with no display, has to use the browser shell.
    pub fn supports_desktop_shell(&self) -> (r: bool)
        ensures
            r == desktop_supported(*self),
    {
        match self.os {
            Os::Windows | Os::Mac => true,
            Os::Linux => !self.in_container && self.display,
            Os::Other => false,
        }
    }

    pub fn describe(&self) -> (r: String)
        ensures
            r@ == description(*self),
    {
        let mut s = match &self.distro_name {
            Some(name) => name.clone(),
            None => own(self.os.as_str()),
        };
        push_str(&mut s, " (");
        push_str(&mut s, self.arch.as_str());
        if self.in_wsl {
            push_str(&mut s, ", WSL");
        }
        if self.in_container {
            push_str(&mut s, ", container");
        }
        push_str(&mut s, ")");
        proof {
            reveal_strlit("");
        }
        assert(s@ =~= description(*self));
        s
    }
}

/// The value of the first line from `i` on that starts with `key`.
pub open spec fn value_from(t: Seq<char>, key: Seq<char>, i: int) -> Option<Seq<char>>
    decreases t.len() - i,
{
    if i < 0 || i >= t.len() {
        None
    } else {
        let l = line_text(t, i);
        if l.len() >= key.len() && l.take(key.len() as int) == key {
            Some(l.skip(key.len() as int))
        } else if line_end(t, i) >= t.len() {
            None
        } else {
            proof {
                lemma_line_end(t, i);
            }
            value_from(t, key, line_end(t, i) + 1)
        }
    }
}

/// Leading and trailing `"` removed.
pub open spec fn unquote(v: Seq<char>) -> Seq<char>
    decreases v.len(),
{
    if v.len() > 0 && v[0] == '"' {
        unquote(v.drop_first())
    } else if v.len() > 0 && v.last() == '"' {
        unquote(v.drop_last())
    } else {
        v
    }
}

/// A value from `/etc/os-release`: the first line starting with `key`, the
/// rest of it with surrounding quotes removed.
pub open spec fn release_value(text: Seq<char>, key: Seq<char>) -> Option<Seq<char>> {
    match value_from(text, key, 0) {
        Some(v) => Some(unquote(v)),
        None => None,
    }
}

fn unquoted(v: &[char]) -> (r: Vec<char>)
    ensures
        r@ == unquote(v@),
{
    let mut lo: usize = 0;
    let mut hi: usize = v.len();
    assert(v@.subrange(0, v@.len() as int) =~= v@);
    while lo < hi && v[lo] == '"'
        invariant
            0 <= lo <= hi == v.len(),
            unquote(v@) == unquote(v@.subrange(lo as int, hi as int)),
        decreases hi - lo,
    {
        assert(v@.subrange(lo as int, hi as int).drop_first() =~= v@.subrange(lo + 1, hi as int));
        lo = lo + 1;
    }
    while lo < hi && v[hi - 1] == '"'
        invariant
            0 <= lo <= hi <= v.len(),
            unquote(v@) == unquote(v@.subrange(lo as int, hi as int)),
            lo < hi ==> v@[lo as int] != '"',
        decreases hi - lo,
    {
        assert(v@.subrange(lo as int, hi as int).drop_last() =~= v@.subrange(lo as int, hi - 1));
        hi = hi - 1;
    }
    proof {
        let w = v@.subrange(lo as int, hi as int);
        if w.len() > 0 {
            assert(w[0] == v@[lo as int]);
            assert(w.last() == v@[hi - 1]);
        }
    }
    slice_of(v, lo, hi)
}

/// Reads `ID=` or `PRETTY_NAME=` out of `/etc/os-release` text.
pub fn os_release_value(text: &str, key: &str) -> (r: Option<String>)
    ensures
        match release_value(text@, key@) {
            Some(v) => r matches Some(s) && s@ == v,
            None => r is None,
        },
{
    let t = chars_of(text);
    let k = chars_of(key);
    let mut i: usize = 0;
    while i < t.len()
        invariant
            0 <= i <= t.len(),
            t@ == text@,
            k@ == key@,
            value_from(t@, k@, 0) == value_from(t@, k@, i as int),
        decreases t.len() - i,
    {
        let mut e = i;
        while e < t.len() && t[e] != '\n'
            invariant
                i <= e <= t.len(),
                line_end(t@, i as int) == line_end(t@, e as int),
            decreases t.len() - e,
        {
            e = e + 1;
        }
        let mut stop = e;
        if e < t.len() && e > i && t[e - 1] == '\r' {
            stop = e - 1;
        }
        let line = slice_of(t.as_slice(), i, stop);
        assert(e == line_end(t@, i as int));
        assert(line@ =~= line_text(t@, i as int));
        if line.len() >= k.len() {
            let head = slice_of(line.as_slice(), 0, k.len());
            let mut same = true;
            let mut j: usize = 0;
            while j < k.len()
                invariant
                    head@.len() == k@.len(),
                    0 <= j <= k.len(),
                    same == (forall|x: int| 0 <= x < j ==> head@[x] == k@[x]),
                decreases k.len() - j,
            {
                if head[j] != k[j] {
                    same = false;
                }
                j = j + 1;
            }
            if same {
                assert(head@ =~= k@);
                assert(line@.take(k@.len() as int) =~= head@);
                let rest = slice_of(line.as_slice(), k.len(), line.len());
                assert(rest@ =~= line@.skip(k@.len() as int));
                assert(value_from(t@, k@, i as int) == Some(rest@));
                let v = unquoted(rest.as_slice());
                return Some(string_of(v.as_slice()));
            } else {
                assert(line@.take(k@.len() as int) != k@) by {
                    let x = choose|x: int| 0 <= x < k.len() && head@[x] != k@[x];
                    assert(line@.take(k@.len() as int)[x] == head@[x]);
                }
            }
        }
        assert(!(line@.len() >= k@.len() && line@.take(k@.len() as int) == k@));
        if e == t.len() {
            assert(value_from(t@, k@, i as int) is None);
            return None;
        }
        assert(value_from(t@, k@, i as int) == value_from(t@, k@, e + 1));
        i = e + 1;
    }
    None
}

pub open spec fn container_markers(text: Seq<char>) -> bool {
    contains_seq(text, "docker"@) || contains_seq(text, "containerd"@) || contains_seq(
        text,
        "kubepods"@,
    )
}

pub(crate) fn has(t: &[char], p: &str) -> (r: bool)
    ensures
        r == contains_seq(t@, p@),
{
    let pc = lit(p);
    proof {
        lemma_contains_iff_found(t@, pc@);
    }
    find_from(t, pc.as_slice(), 0).is_some()
}

/// Whether `/proc/1/cgroup` names a container runtime.
pub fn cgroup_names_container(text: &str) -> (r: bool)
    ensures
        r == container_markers(text@),
{
    let t = chars_of(text);
    has(t.as_slice(), "docker") || has(t.as_slice(), "containerd") || has(t.as_slice(), "kubepods")
}

/// Whether `/proc/version` says this kernel is Microsoft's, in any case.
pub fn version_names_wsl(text: &str) -> (r: bool)
    ensures
        r == contains_seq(lowercase(text@), "microsoft"@),
{
    let low = to_lower(text);
    let t = chars_of(low.as_str());
    has(t.as_slice(), "microsoft")
}

/// The index of the last `c` in `s`, if any.
pub open spec fn last_index_char(s: Seq<char>, c: char) -> Option<int>
    decreases s.len(),
{
    if s.len() == 0 {
        None
    } else if s.last() == c {
        Some(s.len() - 1)
    } else {
        last_index_char(s.drop_last(), c)
    }
}

proof fn lemma_first_found_is_listed(found: Seq<bool>, i: int)
    requires
        0 <= i,
    ensures
        first_found_from(found, i) == PackageManager::Unavailable || probe_order().contains(
            first_found_from(found, i),
        ),
    decreases 7 - i,
{
    if i < 7 && i < found.len() {
        if found[i] {
            assert(probe_order()[i] == first_found_from(found, i));
        } else {
            lemma_first_found_is_listed(found, i + 1);
        }
    }
}

} // verus!
