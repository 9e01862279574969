//! Setup: the one place that installs anything. It says what it will do
//! first, and waits for a yes; the plan, its wording and what counts as a
//! failure are decided here, and the shell runs the commands.
use vstd::prelude::*;
use crate::doctor::{missing_packages, packages_for, static_views, Report};
use crate::entry::{decimal, dec_digits};
use crate::platform::{install_prefix, views, PackageManager};
use crate::text::{own, push_str};

verus! {

#[derive(Debug, Clone, PartialEq, Eq)]
pub struct Plan {
    pub manager: PackageManager,
    pub packages: Vec<String>,
    /// The exact commands that would run, in order.
    pub commands: Vec<Vec<String>>,
}

pub open spec fn command_views(c: Seq<Vec<String>>) -> Seq<Seq<Seq<char>>> {
    c.map_values(|v: Vec<String>| views(v@))
}

/// The commands that install `pkgs`: one per package for winget, which
/// silently installs only the first id it is given, one for every other
/// manager, and none without a manager or without packages.
pub open spec fn commands_for(pm: PackageManager, pkgs: Seq<Seq<char>>) -> Seq<Seq<Seq<char>>> {
    if pkgs.len() == 0 || pm == PackageManager::Unavailable {
        seq![]
    } else if pm == PackageManager::Winget {
        Seq::new(pkgs.len(), |i: int| install_prefix(pm).push(pkgs[i]))
    } else {
        seq![install_prefix(pm) + pkgs]
    }
}

/// `argv.join(" ")`.
pub open spec fn joined(argv: Seq<Seq<char>>) -> Seq<char>
    decreases argv.len(),
{
    if argv.len() == 0 {
        seq![]
    } else if argv.len() == 1 {
        argv[0]
    } else {
        joined(argv.drop_last()) + " "@ + argv.last()
    }
}

pub open spec fn commands_text(cmds: Seq<Seq<Seq<char>>>) -> Seq<char>
    decreases cmds.len(),
{
    if cmds.len() == 0 {
        seq![]
    } else {
        commands_text(cmds.drop_last()) + "  "@ + joined(cmds.last()) + "\n"@
    }
}

/// What the user reads before deciding: the literal commands, because
/// "installs some dependencies" is not consent.
pub open spec fn plan_text(p: Plan) -> Seq<char> {
    if p.commands@.len() == 0 {
        "Nothing to install \u{2014} this machine already has what ARC-LABS needs.\n"@
    } else {
        "ARC-LABS setup will run the following, and nothing else:\n\n"@ + commands_text(
            command_views(p.commands@),
        ) + "\nThis installs system packages only. No vault content is read or sent.\n"@
    }
}

/// Joins an argv with single spaces.
pub fn join_argv(argv: &Vec<String>) -> (r: String)
    ensures
        r@ == joined(views(argv@)),
{
    let mut out = String::new();
    let mut i: usize = 0;
    while i < argv.len()
        invariant
            0 <= i <= argv@.len(),
            out@ == joined(views(argv@.take(i as int))),
        decreases argv@.len() - i,
    {
        let ghost prev = out@;
        if i > 0 {
            push_str(&mut out, " ");
        }
        push_str(&mut out, argv[i].as_str());
        proof {
            reveal_strlit(" ");
            let t = views(argv@.take(i + 1));
            assert(t.drop_last() =~= views(argv@.take(i as int)));
            assert(t.last() == argv@[i as int]@);
            if i == 0 {
                assert(out@ =~= t[0]);
            }
        }
        i = i + 1;
    }
    assert(argv@.take(i as int) =~= argv@);
    out
}

impl Plan {
    pub fn is_empty(&self) -> (r: bool)
        ensures
            r == (self.commands@.len() == 0),
    {
        self.commands.len() == 0
    }

    pub fn render(&self) -> (r: String)
        ensures
            r@ == plan_text(*self),
    {
        if self.is_empty() {
            return own("Nothing to install \u{2014} this machine already has what ARC-LABS needs.\n");
        }
        let mut out = own("ARC-LABS setup will run the following, and nothing else:\n\n");
        let ghost head = out@;
        let mut i: usize = 0;
        while i < self.commands.len()
            invariant
                0 <= i <= self.commands@.len(),
                out@ == head + commands_text(command_views(self.commands@.take(i as int))),
            decreases self.commands@.len() - i,
        {
            let ghost prev = out@;
            push_str(&mut out, "  ");
            let line = join_argv(&self.commands[i]);
            push_str(&mut out, line.as_str());
            push_str(&mut out, "\n");
            proof {
                reveal_strlit("  ");
                reveal_strlit("\n");
                let t = command_views(self.commands@.take(i + 1));
                assert(t.drop_last() =~= command_views(self.commands@.take(i as int)));
                assert(t.last() == views(self.commands@[i as int]@));
                assert(out@ =~= prev + "  "@ + joined(t.last()) + "\n"@);
            }
            i = i + 1;
        }
        assert(self.commands@.take(i as int) =~= self.commands@);
        push_str(&mut out, "\nThis installs system packages only. No vault content is read or sent.\n");
        out
    }
}

/// Build the plan from a doctor report. It runs nothing.
pub fn plan(report: &Report) -> (r: Plan)
    ensures
        r.manager == report.platform.package_manager,
        views(r.packages@) == packages_for(report.platform.package_manager, report.checks@),
        command_views(r.commands@) == commands_for(
            report.platform.package_manager,
            packages_for(report.platform.package_manager, report.checks@),
        ),
{
    let manager = report.platform.package_manager;
    let packages = missing_packages(report);
    let ghost pk = static_views(packages@);
    let mut commands: Vec<Vec<String>> = Vec::new();
    if packages.len() == 0 {
    } else if manager == PackageManager::Winget {
        let mut i: usize = 0;
        while i < packages.len()
            invariant
                manager == PackageManager::Winget,
                0 <= i <= packages@.len(),
                pk == static_views(packages@),
                command_views(commands@) == Seq::new(
                    i as nat,
                    |k: int| install_prefix(manager).push(pk[k]),
                ),
            decreases packages@.len() - i,
        {
            let one: [&str; 1] = [packages[i]];
            let cmd = manager.install_command(&one);
            let ghost prev = commands@;
            match cmd {
                Some(c) => {
                    commands.push(c);
                    proof {
                        assert(crate::platform::str_views(one@) =~= seq![pk[i as int]]);
                        assert(command_views(commands@) =~= Seq::new(
                            (i + 1) as nat,
                            |k: int| install_prefix(manager).push(pk[k]),
                        )) by {
                            assert(views(c@) =~= install_prefix(manager).push(pk[i as int]));
                            assert(command_views(commands@) =~= command_views(prev).push(
                                views(c@),
                            ));
                        }
                    }
                },
                None => {},
            }
            i = i + 1;
        }
    } else {
        match manager.install_command(packages.as_slice()) {
            Some(c) => {
                assert(crate::platform::str_views(packages@) =~= pk);
                commands.push(c);
            },
            None => {},
        }
    }
    let mut names: Vec<String> = Vec::new();
    let mut j: usize = 0;
    while j < packages.len()
        invariant
            0 <= j <= packages@.len(),
            views(names@) == static_views(packages@.take(j as int)),
        decreases packages@.len() - j,
    {
        let ghost prev = names@;
        names.push(own(packages[j]));
        assert(views(names@) =~= views(prev).push(packages@[j as int]@));
        assert(static_views(packages@.take(j + 1)) =~= static_views(packages@.take(j as int)).push(
            packages@[j as int]@,
        ));
        j = j + 1;
    }
    assert(packages@.take(j as int) =~= packages@);
    assert(command_views(commands@) =~= commands_for(manager, pk));
    Plan { manager, packages: names, commands }
}

/// How a setup run ended.
#[derive(Debug)]
pub enum Outcome {
    NothingToDo,
    Declined,
    NoPackageManager,
    Ran { failed: Vec<String> },
}

/// What setup does before asking: nothing to install and no package manager
/// both end it there; otherwise the user is shown the plan and decides.
pub fn preflight(plan: &Plan) -> (r: Result<String, Outcome>)
    ensures
        plan.commands@.len() == 0 ==> r matches Err(Outcome::NothingToDo),
        plan.commands@.len() > 0 && plan.manager == PackageManager::Unavailable ==> r matches Err(
            Outcome::NoPackageManager,
        ),
        plan.commands@.len() > 0 && plan.manager != PackageManager::Unavailable ==> (r matches Ok(
            text,
        ) && text@ == plan_text(*plan)),
{
    if plan.is_empty() {
        return Err(Outcome::NothingToDo);
    }
    if plan.manager == PackageManager::Unavailable {
        return Err(Outcome::NoPackageManager);
    }
    Ok(plan.render())
}

/// How one installer command went.
#[derive(Debug, Clone, PartialEq, Eq)]
pub enum Ran {
    /// It ran and exited; the code is absent when a signal ended it.
    Exited { success: bool, code: Option<i32> },
    /// It could not be started, for this reason.
    NotStarted(String),
}

/// A signed number in decimal.
pub open spec fn int_text(i: int) -> Seq<char> {
    if i < 0 {
        "-"@ + dec_digits((-i) as nat)
    } else {
        dec_digits(i as nat)
    }
}

fn signed_decimal(i: i32) -> (r: String)
    ensures
        r@ == int_text(i as int),
{
    proof {
        reveal_strlit("-");
    }
    if i < 0 {
        let mag: u64 = if i == i32::MIN {
            2147483648u64
        } else {
            (-i) as u64
        };
        let mut out = own("-");
        let d = decimal(mag);
        push_str(&mut out, d.as_str());
        out
    } else {
        decimal(i as u64)
    }
}

/// The line a failed command leaves in the outcome; a command that
/// succeeded leaves none. Setup carries on after a failure: a machine that
/// got three of four packages is closer to working.
pub fn failure(cmd: &Vec<String>, ran: &Ran) -> (r: Option<String>)
    ensures
        match ran {
            Ran::Exited { success: true, .. } => r is None,
            Ran::Exited { success: false, code } => (r matches Some(s) && s@ == joined(
                views(cmd@),
            ) + " (exit "@ + int_text(
                match code {
                    Some(c) => c as int,
                    None => -1,
                },
            ) + ")"@),
            Ran::NotStarted(why) => (r matches Some(s) && s@ == joined(views(cmd@)) + " ("@ + why@
                + ")"@),
        },
{
    match ran {
        Ran::Exited { success: true, .. } => None,
        Ran::Exited { success: false, code } => {
            let mut s = join_argv(cmd);
            push_str(&mut s, " (exit ");
            let c: i32 = match code {
                Some(c) => *c,
                None => -1,
            };
            let d = signed_decimal(c);
            push_str(&mut s, d.as_str());
            push_str(&mut s, ")");
            Some(s)
        },
        Ran::NotStarted(why) => {
            let mut s = join_argv(cmd);
            push_str(&mut s, " (");
            push_str(&mut s, why.as_str());
            push_str(&mut s, ")");
            Some(s)
        },
    }
}

/// Winget gets one command per package, and every one of them names the
/// package by `--id`.
pub proof fn law_winget_plans_one_command_per_package(pkgs: Seq<Seq<char>>)
    ensures
        commands_for(PackageManager::Winget, pkgs).len() == pkgs.len(),
        forall|i: int|
            0 <= i < pkgs.len() ==> #[trigger] commands_for(PackageManager::Winget, pkgs)[i]
                == install_prefix(PackageManager::Winget).push(pkgs[i]),
{
}

/// Without a package manager there is nothing to plan: setup reports the
/// missing manager rather than guessing at one.
pub proof fn law_no_manager_no_plan(pkgs: Seq<Seq<char>>)
    ensures
        commands_for(PackageManager::Unavailable, pkgs).len() == 0,
{
}

} // verus!
