//! A batch of updates or removals, as the log shows it and the commands run.
use vstd::prelude::*;

use crate::command::{CommandLine, Platform};
use crate::manager::{get_managers, spec_managers, ManagerType};
use crate::package::{package_views, Package, PackageView};

verus! {

/// The rule between the packages of a batch in the log.
pub open spec fn separator() -> Seq<char> {
    "========================================"@
}

/// The last line a batch logs.
pub open spec fn done_line() -> Seq<char> {
    "Operations complete. Press 'Esc' to return to dashboard."@
}

/// The line that announces the update or removal of `p`.
pub open spec fn action_line(p: PackageView, is_update: bool) -> Seq<char> {
    (if is_update {
        "Updating"@
    } else {
        "Uninstalling"@
    }) + " "@ + p.name + " via "@ + p.manager.spec_name() + "..."@
}

/// The warning logged before a command that goes through `sudo`.
pub open spec fn sudo_warning(m: ManagerType) -> Seq<char> {
    "WARNING: "@ + m.spec_name()
        + " requires sudo privileges. Using 'sudo -n' (will fail if password prompt is needed)."@
}

/// One step of a batch.
#[derive(Debug)]
pub enum Step {
    /// Add this line to the log.
    Log(String),
    /// Run this command, logging what it prints.
    Run(CommandLine),
}

pub enum StepView {
    Log(Seq<char>),
    Run((Seq<char>, Seq<Seq<char>>)),
}

impl View for Step {
    type V = StepView;

    open spec fn view(&self) -> StepView {
        match self {
            Step::Log(s) => StepView::Log(s@),
            Step::Run(c) => StepView::Run(c@),
        }
    }
}

pub open spec fn step_views(s: Seq<Step>) -> Seq<StepView> {
    s.map_values(|x: Step| x@)
}

/// The steps for package `p`: the rule, the announcement, and, where its
/// manager is offered on `platform`, the sudo warning if the manager needs it
/// and the update or removal command.
pub open spec fn package_steps(p: PackageView, is_update: bool, platform: Platform) -> Seq<StepView> {
    seq![StepView::Log(separator()), StepView::Log(action_line(p, is_update))] + if spec_managers(
        platform,
    ).contains(p.manager) {
        (if p.manager.spec_requires_sudo() {
            seq![StepView::Log(sudo_warning(p.manager))]
        } else {
            seq![]
        }) + seq![
            StepView::Run(
                if is_update {
                    p.manager.spec_update_command(p.name, platform)
                } else {
                    p.manager.spec_delete_command(p.name, platform)
                },
            ),
        ]
    } else {
        seq![]
    }
}

/// The steps for each package of `ps`, in order.
pub open spec fn packages_steps(ps: Seq<PackageView>, is_update: bool, platform: Platform) -> Seq<StepView>
    decreases ps.len(),
{
    if ps.len() == 0 {
        seq![]
    } else {
        packages_steps(ps.drop_last(), is_update, platform) + package_steps(ps.last(), is_update, platform)
    }
}

/// The steps of a whole batch: those of each package, then the closing rule
/// and the line that says the batch is done.
pub open spec fn spec_operation_steps(ps: Seq<PackageView>, is_update: bool, platform: Platform) -> Seq<
    StepView,
> {
    packages_steps(ps, is_update, platform) + seq![StepView::Log(separator()), StepView::Log(done_line())]
}

fn log_step(s: &str) -> (r: Step)
    ensures
        r@ == StepView::Log(s@),
{
    Step::Log(s.to_owned())
}

/// The line that announces the update or removal of `p`.
pub fn announce(p: &Package, is_update: bool) -> (r: String)
    ensures
        r@ == action_line(p@, is_update),
{
    let head = if is_update {
        "Updating".to_owned()
    } else {
        "Uninstalling".to_owned()
    };
    head.concat(" ").concat(p.name.as_str()).concat(" via ").concat(p.manager.name()).concat("...")
}

/// The warning logged before a command of `m` that goes through `sudo`.
pub fn sudo_warning_line(m: ManagerType) -> (r: String)
    ensures
        r@ == sudo_warning(m),
{
    "WARNING: ".to_owned().concat(m.name()).concat(
        " requires sudo privileges. Using 'sudo -n' (will fail if password prompt is needed).",
    )
}

/// Whether `m` is among the managers offered on `platform`.
fn is_offered(m: ManagerType, platform: Platform) -> (b: bool)
    ensures
        b == spec_managers(platform).contains(m),
{
    let ms = get_managers(platform);
    let mut i: usize = 0;
    while i < ms.len()
        invariant
            i <= ms@.len(),
            ms@ == spec_managers(platform),
            forall|j: int| 0 <= j < i ==> ms@[j] != m,
        decreases ms@.len() - i,
    {
        if ms[i] == m {
            return true;
        }
        i = i + 1;
    }
    false
}

/// Appends the steps for package `p`.
fn push_package_steps(steps: &mut Vec<Step>, p: &Package, is_update: bool, platform: Platform)
    ensures
        step_views(final(steps)@) == step_views(old(steps)@) + package_steps(p@, is_update, platform),
{
    let ghost start = step_views(steps@);
    steps.push(log_step("========================================"));
    steps.push(Step::Log(announce(p, is_update)));
    assert(step_views(steps@) =~= start + seq![StepView::Log(separator()), StepView::Log(action_line(p@, is_update))]);
    if is_offered(p.manager, platform) {
        let ghost mid = step_views(steps@);
        if p.manager.requires_sudo() {
            steps.push(Step::Log(sudo_warning_line(p.manager)));
        }
        let cmd = if is_update {
            p.manager.update_command(p.name.as_str(), platform)
        } else {
            p.manager.delete_command(p.name.as_str(), platform)
        };
        steps.push(Step::Run(cmd));
        assert(step_views(steps@) =~= start + package_steps(p@, is_update, platform));
    } else {
        assert(step_views(steps@) =~= start + package_steps(p@, is_update, platform));
    }
}

/// The steps of a batch that updates (`is_update`) or removes `packages`.
pub fn operation_steps(packages: &Vec<Package>, is_update: bool, platform: Platform) -> (r: Vec<Step>)
    ensures
        step_views(r@) == spec_operation_steps(package_views(packages@), is_update, platform),
{
    let mut steps: Vec<Step> = Vec::new();
    let mut i: usize = 0;
    assert(package_views(packages@).take(0) =~= Seq::<PackageView>::empty());
    assert(step_views(steps@) =~= Seq::<StepView>::empty());
    while i < packages.len()
        invariant
            i <= packages@.len(),
            step_views(steps@) == packages_steps(package_views(packages@).take(i as int), is_update, platform),
        decreases packages@.len() - i,
    {
        assert(package_views(packages@).take(i + 1).drop_last() =~= package_views(packages@).take(i as int));
        assert(package_views(packages@).take(i + 1).last() == packages@[i as int]@);
        push_package_steps(&mut steps, &packages[i], is_update, platform);
        i = i + 1;
    }
    assert(package_views(packages@).take(i as int) =~= package_views(packages@));
    let ghost before = step_views(steps@);
    steps.push(log_step("========================================"));
    steps.push(log_step("Operations complete. Press 'Esc' to return to dashboard."));
    assert(step_views(steps@) =~= before + seq![StepView::Log(separator()), StepView::Log(done_line())]);
    steps
}

/// The log line for a line a command printed on its error stream.
pub fn error_line(line: &str) -> (r: String)
    ensures
        r@ == "ERROR: "@ + line@,
{
    "ERROR: ".to_owned().concat(line)
}

/// The log line for a command that could not be started, given the reason.
pub fn start_failure_line(reason: &str) -> (r: String)
    ensures
        r@ == "Failed to start command: "@ + reason@,
{
    "Failed to start command: ".to_owned().concat(reason)
}

/// How many commands the steps run.
pub open spec fn count_runs(s: Seq<StepView>) -> nat
    decreases s.len(),
{
    if s.len() == 0 {
        0
    } else {
        count_runs(s.drop_last()) + if s.last() is Run {
            1nat
        } else {
            0nat
        }
    }
}

/// How many of `ps` belong to a manager offered on `platform`.
pub open spec fn count_offered(ps: Seq<PackageView>, platform: Platform) -> nat
    decreases ps.len(),
{
    if ps.len() == 0 {
        0
    } else {
        count_offered(ps.drop_last(), platform) + if spec_managers(platform).contains(ps.last().manager) {
            1nat
        } else {
            0nat
        }
    }
}

proof fn lemma_count_runs_add(a: Seq<StepView>, b: Seq<StepView>)
    ensures
        count_runs(a + b) == count_runs(a) + count_runs(b),
    decreases b.len(),
{
    if b.len() == 0 {
        assert(a + b =~= a);
    } else {
        lemma_count_runs_add(a, b.drop_last());
        assert((a + b).drop_last() =~= a + b.drop_last());
    }
}

/// A batch runs one command for each of its packages whose manager is offered
/// on the platform, and no other.
pub proof fn lemma_one_command_per_package(ps: Seq<PackageView>, is_update: bool, platform: Platform)
    ensures
        count_runs(spec_operation_steps(ps, is_update, platform)) == count_offered(ps, platform),
    decreases ps.len(),
{
    reveal_with_fuel(count_runs, 3);
    lemma_packages_runs(ps, is_update, platform);
    lemma_count_runs_add(
        packages_steps(ps, is_update, platform),
        seq![StepView::Log(separator()), StepView::Log(done_line())],
    );
    let tail = seq![StepView::Log(separator()), StepView::Log(done_line())];
    assert(tail.drop_last().drop_last() =~= Seq::<StepView>::empty());
    assert(count_runs(tail.drop_last()) == 0);
}

proof fn lemma_packages_runs(ps: Seq<PackageView>, is_update: bool, platform: Platform)
    ensures
        count_runs(packages_steps(ps, is_update, platform)) == count_offered(ps, platform),
    decreases ps.len(),
{
    reveal_with_fuel(count_runs, 3);
    if ps.len() > 0 {
        lemma_packages_runs(ps.drop_last(), is_update, platform);
        let own = package_steps(ps.last(), is_update, platform);
        lemma_count_runs_add(packages_steps(ps.drop_last(), is_update, platform), own);
        let p = ps.last();
        let head = seq![StepView::Log(separator()), StepView::Log(action_line(p, is_update))];
        assert(head.drop_last().drop_last() =~= Seq::<StepView>::empty());
        assert(count_runs(head) == 0);
        if spec_managers(platform).contains(p.manager) {
            let warn: Seq<StepView> = if p.manager.spec_requires_sudo() {
                seq![StepView::Log(sudo_warning(p.manager))]
            } else {
                seq![]
            };
            let run = seq![
                StepView::Run(
                    if is_update {
                        p.manager.spec_update_command(p.name, platform)
                    } else {
                        p.manager.spec_delete_command(p.name, platform)
                    },
                ),
            ];
            assert(warn.len() == 0 || warn.drop_last() =~= Seq::<StepView>::empty());
            assert(count_runs(warn) == 0);
            assert(run.drop_last() =~= Seq::<StepView>::empty());
            assert(count_runs(run) == 1);
            lemma_count_runs_add(warn, run);
            lemma_count_runs_add(head, warn + run);
            assert(own == head + (warn + run));
        } else {
            assert(own =~= head);
        }
    }
}

/// Where a package's manager goes through `sudo`, its command is announced
/// by the sudo warning right before it.
pub proof fn lemma_sudo_warned(p: PackageView, is_update: bool, platform: Platform)
    requires
        spec_managers(platform).contains(p.manager),
        p.manager.spec_requires_sudo(),
    ensures
        package_steps(p, is_update, platform).len() == 4,
        package_steps(p, is_update, platform)[2] == StepView::Log(sudo_warning(p.manager)),
        package_steps(p, is_update, platform)[3] is Run,
{
}

} // verus!
