//! The rows of a run, and what it found.

use crate::journal::record::SessionKind;
use crate::plan::diff::Diff;
use crate::report::{Action, Exit};
use crate::state::Portable;
use vstd::prelude::*;

verus! {

/// Which half of the traversal is running.
#[derive(Clone, Copy, Debug, PartialEq, Eq, Structural)]
pub enum Mode {
    /// Decide and report. Writes nothing.
    Plan,
    /// Recover, decide, report, and, once approved, write.
    Apply,
}

/// Where something was declared.
#[derive(Debug, PartialEq, Eq)]
pub struct Origin {
    /// The file.
    pub file: String,
    /// The line, or zero where it is not known.
    pub line: usize,
}

impl Origin {
    /// A place in a file that is not known.
    pub fn unknown(file: &str) -> (r: Origin)
        ensures
            r.file@ == file@,
            r.line == 0,
    {
        Origin { file: file.to_owned(), line: 0 }
    }
}

impl Clone for Origin {
    fn clone(&self) -> (r: Origin)
        ensures
            r == *self,
    {
        Origin { file: self.file.clone(), line: self.line }
    }
}

/// One row of a plan: a target and what happens to it.
#[derive(Debug, PartialEq, Eq)]
pub struct Change {
    /// The target, spelled portably. A string rather than a path because a
    /// blocked target is named by its key before substitution.
    pub target: String,
    /// Where the target was declared.
    pub origin: Origin,
    /// What happens to it.
    pub action: Action,
    /// What it would look like, for a row that is not unchanged or blocked.
    pub diff: Option<Diff>,
    /// The one-line explanation printed after the path.
    pub note: Option<String>,
}

/// What an interrupted write left at its destination.
#[derive(Clone, Copy, Debug, PartialEq, Eq, Structural)]
pub enum Standing {
    /// What the write leaves.
    Written,
    /// What was there before.
    Before,
    /// Neither.
    Diverged,
}

/// One write of an interrupted session.
#[derive(Debug, PartialEq, Eq)]
pub struct Unfinished {
    /// The target.
    pub target: Portable,
    /// Its destination.
    pub dest: String,
    /// What stands there.
    pub standing: Standing,
    /// Whether recovery can put it back.
    pub resolvable: bool,
    /// What is said of it.
    pub note: String,
}

/// An interrupted session.
#[derive(Debug, PartialEq, Eq)]
pub struct Interrupted {
    /// What it was for.
    pub kind: SessionKind,
    /// Its journal.
    pub journal: String,
    /// Whether it wrote everything and did not record it.
    pub complete: bool,
    /// Whether its journal is not believed.
    pub unreadable: bool,
    /// Its writes, in the order it announced them.
    pub unfinished: Vec<Unfinished>,
}

/// How many of some writes recovery cannot account for.
pub open spec fn unresolvable(unfinished: Seq<Unfinished>) -> nat
    decreases unfinished.len(),
{
    if unfinished.len() == 0 {
        0
    } else {
        unresolvable(unfinished.drop_last()) + if unfinished.last().resolvable {
            0nat
        } else {
            1
        }
    }
}

impl Interrupted {
    /// How many of its writes recovery cannot account for.
    pub fn blocked(&self) -> (r: usize)
        ensures
            r == unresolvable(self.unfinished@),
    {
        let mut n: usize = 0;
        let mut i: usize = 0;
        let all = &self.unfinished;
        while i < all.len()
            invariant
                i <= all.len(),
                n == unresolvable(all@.subrange(0, i as int)),
                n <= i,
            decreases all.len() - i,
        {
            assert(all@.subrange(0, i + 1).drop_last() =~= all@.subrange(0, i as int));
            if !all[i].resolvable {
                n = n + 1;
            }
            i = i + 1;
        }
        assert(all@.subrange(0, all@.len() as int) =~= all@);
        n
    }
}

/// Everything one run found.
#[derive(Debug, PartialEq, Eq)]
pub struct Report {
    /// One row per resolved target, in configuration order.
    pub changes: Vec<Change>,
    /// An interrupted session, when one was found standing.
    pub interrupted: Option<Interrupted>,
    /// Whether an `apply` held the state directory while `plan` looked.
    pub apply_running: bool,
    /// Whether this run wrote.
    pub executed: bool,
    /// What recovery did, in words, when an `apply` found an interrupted
    /// session, was approved, recovered it, and stopped there.
    pub recovered: Option<String>,
}

impl Default for Report {
    fn default() -> (r: Report)
        ensures
            r.changes@.len() == 0,
            r.interrupted is None,
            !r.apply_running,
            !r.executed,
            r.recovered is None,
    {
        Report {
            changes: Vec::new(),
            interrupted: None,
            apply_running: false,
            executed: false,
            recovered: None,
        }
    }
}

/// Every row's action, in order.
pub open spec fn actions_of(changes: Seq<Change>) -> Seq<Action> {
    Seq::new(changes.len(), |i: int| changes[i].action)
}

impl Report {
    /// Every row's action, in order.
    pub fn actions(&self) -> (r: Vec<Action>)
        ensures
            r@ == actions_of(self.changes@),
    {
        let mut out: Vec<Action> = Vec::new();
        let mut i: usize = 0;
        while i < self.changes.len()
            invariant
                i <= self.changes.len(),
                out@ == actions_of(self.changes@).subrange(0, i as int),
            decreases self.changes.len() - i,
        {
            out.push(self.changes[i].action);
            assert(out@ =~= actions_of(self.changes@).subrange(0, i + 1));
            i = i + 1;
        }
        assert(out@ =~= actions_of(self.changes@));
        out
    }
}

/// What a report exits with.
pub open spec fn exit_of(report: Report, mode: Mode) -> Exit {
    let actions = actions_of(report.changes@);
    if report.interrupted is Some || report.apply_running {
        Exit::Pending
    } else if mode == Mode::Apply && report.executed {
        if exists|i: int| 0 <= i < actions.len() && (#[trigger] actions[i]).attention() {
            Exit::Pending
        } else {
            Exit::Converged
        }
    } else if exists|i: int|
        0 <= i < actions.len() && !(#[trigger] actions[i]).settled() {
        Exit::Pending
    } else {
        Exit::Converged
    }
}

/// The process status a report implies.
///
/// An executed `apply` has done its pending work, so only a row still needing
/// attention keeps it pending. An `apply` that wrote nothing (declined, or with
/// nothing to do) exits by its actions, so a declined prompt over pending work
/// stays pending.
///
/// A standing interruption and a running `apply` settle it before the mode or
/// the rows are consulted: while a journal stands, every configured target is
/// undecided, whoever is asking.
pub fn exit(report: &Report, mode: Mode) -> (r: Exit)
    ensures
        r == exit_of(*report, mode),
{
    let actions = report.actions();
    if report.interrupted.is_some() || report.apply_running {
        return Exit::Pending;
    }
    if mode == Mode::Apply && report.executed {
        let mut i: usize = 0;
        while i < actions.len()
            invariant
                i <= actions.len(),
                actions@ == actions_of(report.changes@),
                mode == Mode::Apply,
                report.executed,
                report.interrupted is None,
                !report.apply_running,
                forall|j: int| 0 <= j < i ==> !(#[trigger] actions@[j]).attention(),
            decreases actions.len() - i,
        {
            if actions[i].needs_attention() {
                assert(actions@[i as int].attention());
                return Exit::Pending;
            }
            i = i + 1;
        }
        return Exit::Converged;
    }
    Exit::from_actions(&actions)
}

/// An unsettled state directory is never reported as converged, in either mode
/// and whatever the rows are.
pub proof fn an_unsettled_state_is_pending(report: Report, mode: Mode)
    requires
        report.interrupted is Some || report.apply_running,
    ensures
        exit_of(report, mode) == Exit::Pending,
{
}

/// A run that wrote nothing exits alike in both modes: declining an `apply`
/// leaves the machine no more converged than the `plan` before it.
pub proof fn a_declined_apply_exits_as_the_plan(report: Report)
    requires
        !report.executed,
    ensures
        exit_of(report, Mode::Apply) == exit_of(report, Mode::Plan),
{
}

/// A run is converged exactly where nothing unsettled stands and no row is left
/// to do: after an `apply` that wrote, no row is a conflict or blocked; otherwise
/// every row is as it should be or no longer declared.
pub proof fn a_run_is_converged_only_when_nothing_is_left(report: Report, mode: Mode)
    ensures
        exit_of(report, mode) == Exit::Converged <==> {
            &&& report.interrupted is None
            &&& !report.apply_running
            &&& forall|i: int|
                0 <= i < report.changes@.len() ==> ({
                    let action = (#[trigger] report.changes@[i]).action;
                    if mode == Mode::Apply && report.executed {
                        action != Action::Conflict && action != Action::Blocked
                    } else {
                        action == Action::Unchanged || action == Action::Undeclared
                    }
                })
        },
{
    let actions = actions_of(report.changes@);
    assert forall|i: int| 0 <= i < actions.len() implies #[trigger] actions[i]
        == report.changes@[i].action by {}
    assert forall|i: int| 0 <= i < report.changes@.len() implies (
    #[trigger] report.changes@[i]).action == actions[i] by {}
}

/// What recovery cannot account for is counted once each, and is nothing exactly
/// where it can account for every write.
pub proof fn every_unaccounted_write_is_counted(
    some: Seq<Unfinished>,
    more: Seq<Unfinished>,
)
    ensures
        unresolvable(some + more) == unresolvable(some) + unresolvable(more),
        unresolvable(some) == 0 <==> forall|i: int|
            0 <= i < some.len() ==> (#[trigger] some[i]).resolvable,
        some.len() == 1 && !some[0].resolvable ==> unresolvable(some) == 1,
    decreases some.len() + more.len(),
{
    reveal_with_fuel(unresolvable, 2);
    if more.len() > 0 {
        assert((some + more).drop_last() =~= some + more.drop_last());
        every_unaccounted_write_is_counted(some, more.drop_last());
    } else {
        assert(some + more =~= some);
        if some.len() > 0 {
            every_unaccounted_write_is_counted(some.drop_last(), Seq::empty());
            assert(some.drop_last() + Seq::<Unfinished>::empty() =~= some.drop_last());
            assert forall|i: int| 0 <= i < some.len() - 1 implies #[trigger] some[i]
                == some.drop_last()[i] by {}
            if forall|i: int| 0 <= i < some.drop_last().len() ==> (
            #[trigger] some.drop_last()[i]).resolvable {
                if some.last().resolvable {
                    assert forall|i: int| 0 <= i < some.len() implies (
                    #[trigger] some[i]).resolvable by {
                        if i < some.len() - 1 {
                            assert(some.drop_last()[i].resolvable);
                        }
                    }
                }
            } else {
                let i = choose|i: int|
                    0 <= i < some.drop_last().len() && !(
                    #[trigger] some.drop_last()[i]).resolvable;
                assert(!some[i].resolvable);
            }
        }
    }
}

} // verus!
