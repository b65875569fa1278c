//! `plan` and `apply`: one traversal, one decision per target.
//!
//! A run never does work it did not announce: every target is decided through
//! the same function whatever the [`Mode`], and the write a decision produced
//! carries the observation and the bytes it was made from. `plan` writes
//! nothing. `apply` shows the same rows, asks, and makes every write through one
//! journalled session; an interrupted session is resolved before anything else,
//! and is then all a run does.

use crate::journal::session::Request;
use crate::list::backwards;
use crate::order::{is_path_before, lemma_path_order, path_before};
use crate::paths::{components, spans_of, spans_view};
use crate::plan::checkout;
use crate::plan::decide::{asks, Op};
use crate::plan::error::Error;
use crate::plan::rows::{Change, Interrupted, Mode, Report};
use crate::plan::target::Resolution;
use crate::report::Action;
use crate::state::{texts, Portable};
use crate::text::{chars_of, opt_text, same_text, text_of};
use vstd::prelude::*;

verus! {

/// Everything bx takes from the process it runs in.
#[derive(Debug, PartialEq, Eq)]
pub struct Env {
    /// `$HOME`.
    pub home: String,
    /// `$XDG_CONFIG_HOME`, which places the config repo.
    pub xdg_config_home: Option<String>,
    /// `$XDG_STATE_HOME`, which places the state directory.
    pub xdg_state_home: Option<String>,
    /// Whether `$NO_COLOR` is set to something other than the empty string.
    pub no_color: bool,
    /// Whether standard output is a terminal.
    pub stdout_tty: bool,
    /// Whether standard input is a terminal, so a confirmation can be asked.
    pub stdin_tty: bool,
    /// Whether standard error is a terminal, so progress can be drawn.
    pub stderr_tty: bool,
}

/// Whether a path climbs: one of its components is `..`.
pub open spec fn climbs(path: Seq<char>) -> bool {
    components(path).contains(".."@)
}

/// `home`, refused when it has a `..` component.
///
/// Not normalised: `/a/..` is not `/` when `/a` is a symlink, and every path bx
/// writes is rendered against the home, so a home bx cannot name exactly is
/// refused here, naming `HOME`, rather than by the first target beneath it.
///
/// # Errors
///
/// [`Error::HomeParentComponent`] naming the home.
pub fn usable_home(home: String) -> (r: Result<String, Error>)
    ensures
        r == if climbs(home@) {
            Err(Error::HomeParentComponent(home))
        } else {
            Ok(home)
        },
{
    let chars = chars_of(home.as_str());
    let spans = spans_of(chars.as_slice());
    let ghost all = components(home@);
    assert(spans_view(spans@).len() == spans@.len());
    proof {
        assert forall|k: int| 0 <= k < spans@.len() implies (#[trigger] spans@[k]).0 <= spans@[k].1
            <= chars@.len() by {
            assert(spans_view(spans@)[k] == (spans@[k].0 as int, spans@[k].1 as int));
        }
    }
    let mut i: usize = 0;
    while i < spans.len()
        invariant
            i <= spans.len(),
            chars@ == home@,
            all == components(home@),
            spans_view(spans@) == crate::paths::spans(home@),
            spans_view(spans@).len() == spans@.len(),
            forall|k: int|
                0 <= k < spans@.len() ==> (#[trigger] spans@[k]).0 <= spans@[k].1 <= chars@.len(),
            forall|j: int| 0 <= j < i ==> all[j] != ".."@,
        decreases spans.len() - i,
    {
        let (start, end) = spans[i];
        let word = text_of(vstd::slice::slice_subrange(chars.as_slice(), start, end));
        assert(spans_view(spans@)[i as int] == (start as int, end as int));
        assert(word@ == all[i as int]);
        if same_text(word.as_str(), "..") {
            return Err(Error::HomeParentComponent(home));
        }
        i = i + 1;
    }
    Ok(home)
}

/// Whether a `NO_COLOR` value asks for no colour: set, to anything but the empty
/// string.
pub fn no_color(value: Option<&str>) -> (r: bool)
    ensures
        r == match value {
            Some(value) => value@.len() > 0,
            None => false,
        },
{
    match value {
        Some(value) => chars_of(value).len() > 0,
        None => false,
    }
}

/// What a run decides against, loaded once.
#[derive(Debug, PartialEq, Eq)]
pub struct Inputs {
    pub home: String,
    pub repo: String,
    pub state: String,
    pub resolved: Vec<Resolution>,
    pub progress: bool,
}

impl Inputs {
    /// The account's home.
    pub fn home(&self) -> (r: &str)
        ensures
            r@ == self.home@,
    {
        self.home.as_str()
    }

    /// The config repo.
    pub fn repo(&self) -> (r: &str)
        ensures
            r@ == self.repo@,
    {
        self.repo.as_str()
    }

    /// The state directory.
    pub fn state(&self) -> (r: &str)
        ensures
            r@ == self.state@,
    {
        self.state.as_str()
    }
}

/// Something beneath the state directory.
#[derive(Debug, PartialEq, Eq)]
pub struct StateEntry {
    /// Where it is.
    pub path: String,
    /// Whether it is neither a regular file nor a directory.
    pub irregular: bool,
}

/// Refuse anything in the state directory that is neither a regular file nor a
/// directory, before any reader opens it.
///
/// bx only ever leaves a state file by rename, and a FIFO, a device or a link at
/// one could make a read wait forever or never end. Everything under the state
/// root is bx's own, so nothing there is legitimately either. `entries` is
/// everything found beneath the root, in any order; a tree that holds two
/// irregular entries is always refused naming the first of them.
///
/// # Errors
///
/// [`Error::NotARegularFile`] naming the entry.
pub fn refuse_irregular_state_files(entries: &Vec<StateEntry>) -> (r: Result<(), Error>)
    ensures
        r is Ok <==> forall|i: int| 0 <= i < entries@.len() ==> !(#[trigger] entries@[i]).irregular,
        r is Err ==> exists|i: int|
            0 <= i < entries@.len() && (#[trigger] entries@[i]).irregular && (
            r->Err_0 matches Error::NotARegularFile { path } && path@ == entries@[i].path@)
                && forall|j: int|
                0 <= j < entries@.len() && (#[trigger] entries@[j]).irregular ==> !path_before(
                    entries@[j].path@,
                    entries@[i].path@,
                ),
{
    let mut found: Option<usize> = None;
    let mut i: usize = 0;
    while i < entries.len()
        invariant
            i <= entries.len(),
            match found {
                None => forall|j: int| 0 <= j < i ==> !(#[trigger] entries@[j]).irregular,
                Some(k) => k < i && entries@[k as int].irregular && forall|j: int|
                    0 <= j < i && (#[trigger] entries@[j]).irregular ==> !path_before(
                        entries@[j].path@,
                        entries@[k as int].path@,
                    ),
            },
        decreases entries.len() - i,
    {
        if entries[i].irregular {
            let first = match found {
                None => true,
                Some(k) => is_path_before(entries[i].path.as_str(), entries[k].path.as_str()),
            };
            if first {
                proof {
                    let new = entries@[i as int].path@;
                    lemma_path_order(new, new, new);
                    assert forall|j: int| 0 <= j < i + 1 && (#[trigger] entries@[j]).irregular implies !path_before(
                        entries@[j].path@,
                        new,
                    ) by {
                        if j < i && found is Some {
                            let old = entries@[found->0 as int].path@;
                            lemma_path_order(entries@[j].path@, new, old);
                        }
                    }
                }
                found = Some(i);
            }
        }
        i = i + 1;
    }
    match found {
        None => Ok(()),
        Some(k) => Err(Error::NotARegularFile { path: entries[k].path.clone() }),
    }
}

/// What a run learns from the state directory before deciding.
///
/// An `apply` holding the directory is reported as running, and its journal is
/// not an interruption.
pub fn look_at_state(held: bool, pending: Option<Interrupted>) -> (r: Report)
    ensures
        r.apply_running == held,
        r.interrupted == if held {
            None
        } else {
            pending
        },
        r.changes@.len() == 0,
        !r.executed,
        r.recovered is None,
{
    let mut report = Report::default();
    if held {
        report.apply_running = true;
        return report;
    }
    report.interrupted = pending;
    report
}

/// The report of a run over a settled state directory: a row for every target,
/// then for every external, then for everything that is left of what is no
/// longer declared.
pub fn report_of(
    held: bool,
    decided: Vec<Change>,
    externals: Vec<Change>,
    left: Vec<Change>,
) -> (r: Report)
    ensures
        r.changes@ == decided@ + externals@ + left@,
        r.apply_running == held,
        r.interrupted is None,
        !r.executed,
        r.recovered is None,
{
    let mut report = look_at_state(held, None);
    let mut changes = decided;
    let mut externals = externals;
    let mut left = left;
    changes.append(&mut externals);
    changes.append(&mut left);
    report.changes = changes;
    report
}

/// The report of a run over an interrupted session: the session's rows, and
/// nothing else.
pub fn report_over(interrupted: Interrupted, rows: Vec<Change>) -> (r: Report)
    ensures
        r.changes@ == rows@,
        r.interrupted == Some(interrupted),
        !r.apply_running,
        !r.executed,
        r.recovered is None,
{
    let mut report = look_at_state(false, Some(interrupted));
    report.changes = rows;
    report
}

/// Whether a row is another that its work stopped short of, and why.
pub open spec fn is_stopped(before: Change, why: Seq<char>, after: Change) -> bool {
    &&& after.target == before.target
    &&& after.origin == before.origin
    &&& after.action == Action::Blocked
    &&& after.diff == before.diff
    &&& opt_text(after.note) == Some(why)
}

/// A report once the work of one external stopped short, and why: the `at`th of
/// the externals, which come after the rows of `targets` targets.
pub fn stopped(report: Report, targets: usize, at: usize, why: String) -> (r: Report)
    requires
        targets + at < report.changes@.len(),
    ensures
        r.changes@.len() == report.changes@.len(),
        forall|j: int|
            0 <= j < r.changes@.len() && j != targets + at ==> #[trigger] r.changes@[j]
                == report.changes@[j],
        is_stopped(report.changes@[targets + at], why@, r.changes@[targets + at]),
        r.interrupted == report.interrupted,
        r.apply_running == report.apply_running,
        r.executed == report.executed,
        r.recovered == report.recovered,
{
    let mut report = report;
    let ghost before = report.changes@;
    assert(targets + at < report.changes.len());
    let i: usize = targets + at;
    let Change { target, origin, diff, .. } = report.changes.remove(i);
    let row = Change { target, origin, action: Action::Blocked, diff, note: Some(why) };
    report.changes.insert(i, row);
    assert forall|j: int| 0 <= j < before.len() && j != i implies #[trigger] report.changes@[j]
        == before[j] by {}
    report
}

/// The report of a run that wrote.
pub fn executed(report: Report) -> (r: Report)
    ensures
        r == (Report { executed: true, ..report }),
{
    let mut report = report;
    report.executed = true;
    report
}

/// The report of a run that recovered an interrupted session, and stopped there:
/// what was done, in words.
pub fn recovered(report: Report, what: String) -> (r: Report)
    ensures
        r == (Report { recovered: Some(what), ..report }),
{
    let mut report = report;
    report.recovered = Some(what);
    report
}

/// What a run does next.
#[derive(Debug, PartialEq, Eq)]
pub enum Turn {
    /// Show the report, and stop.
    Show,
    /// Refuse: another `apply` holds the state directory.
    Locked,
    /// Refuse: recovery cannot account for these of the interrupted session's
    /// writes.
    Refuse(Vec<usize>),
    /// Show the report and ask.
    Ask,
    /// Recover the interrupted session, and stop.
    Recover,
    /// Open a session over these targets and make the writes through it, then do
    /// the work of the externals.
    Write(Vec<Portable>),
}

/// Whether `blocked` is the writes recovery cannot account for, in order.
pub open spec fn are_blocked(interrupted: Interrupted, blocked: Seq<usize>) -> bool {
    &&& forall|k: int|
        0 <= k < blocked.len() ==> (#[trigger] blocked[k]) < interrupted.unfinished@.len()
            && !interrupted.unfinished@[blocked[k] as int].resolvable
    &&& forall|i: int|
        0 <= i < interrupted.unfinished@.len() && !(#[trigger] interrupted.unfinished@[i]).resolvable
            ==> blocked.contains(i as usize)
    &&& forall|j: int, k: int|
        0 <= j < k < blocked.len() ==> (#[trigger] blocked[j]) < #[trigger] blocked[k]
}

/// Whether recovery can account for every write of an interrupted session.
pub open spec fn resolvable(interrupted: Interrupted) -> bool {
    forall|i: int|
        0 <= i < interrupted.unfinished@.len() ==> (#[trigger] interrupted.unfinished@[i]).resolvable
}

/// The targets of some writes, in order.
pub open spec fn scope_of(ops: Seq<Op>) -> Seq<Seq<char>> {
    Seq::new(ops.len(), |i: int| ops[i].target@)
}

/// Whether a turn is what a run does next.
pub open spec fn is_next(
    turn: Turn,
    mode: Mode,
    report: Report,
    ops: Seq<Op>,
    work: Seq<checkout::Op>,
    approved: Option<bool>,
) -> bool {
    if mode == Mode::Plan {
        turn is Show
    } else if report.apply_running {
        turn is Locked
    } else if report.interrupted is Some {
        let interrupted = report.interrupted->0;
        if !resolvable(interrupted) {
            turn matches Turn::Refuse(blocked) && are_blocked(interrupted, blocked@)
        } else {
            turn == match approved {
                None => Turn::Ask,
                Some(true) => Turn::Recover,
                Some(false) => Turn::Show,
            }
        }
    } else if ops.len() == 0 && work.len() == 0 {
        turn is Show
    } else {
        match approved {
            None => turn is Ask,
            Some(false) => turn is Show,
            Some(true) => turn matches Turn::Write(scope) && texts(scope@) == scope_of(ops),
        }
    }
}

fn blocked_of(interrupted: &Interrupted) -> (r: Vec<usize>)
    ensures
        are_blocked(*interrupted, r@),
        r@.len() == 0 <==> resolvable(*interrupted),
{
    let mut out: Vec<usize> = Vec::new();
    let mut i: usize = 0;
    while i < interrupted.unfinished.len()
        invariant
            i <= interrupted.unfinished.len(),
            forall|k: int|
                0 <= k < out@.len() ==> (#[trigger] out@[k]) < i
                    && !interrupted.unfinished@[out@[k] as int].resolvable,
            forall|j: int|
                0 <= j < i && !(#[trigger] interrupted.unfinished@[j]).resolvable ==> out@.contains(
                    j as usize,
                ),
            forall|j: int, k: int|
                0 <= j < k < out@.len() ==> (#[trigger] out@[j]) < #[trigger] out@[k],
        decreases interrupted.unfinished.len() - i,
    {
        let ghost before = out@;
        if !interrupted.unfinished[i].resolvable {
            out.push(i);
            assert(out@[before.len() as int] == i);
            assert forall|j: int|
                0 <= j < i + 1 && !(#[trigger] interrupted.unfinished@[j]).resolvable implies out@.contains(
                j as usize,
            ) by {
                if j < i {
                    assert(before.contains(j as usize));
                    let k = choose|k: int| 0 <= k < before.len() && before[k] == j as usize;
                    assert(out@[k] == before[k]);
                }
            }
        }
        i = i + 1;
    }
    proof {
        if out@.len() > 0 {
            assert(!interrupted.unfinished@[out@[0] as int].resolvable);
        }
    }
    out
}

fn scope(ops: &Vec<Op>) -> (r: Vec<Portable>)
    ensures
        texts(r@) == scope_of(ops@),
{
    let mut out: Vec<Portable> = Vec::new();
    let mut i: usize = 0;
    while i < ops.len()
        invariant
            i <= ops.len(),
            out@.len() == i,
            forall|k: int| 0 <= k < i ==> (#[trigger] out@[k])@ == ops@[k].target@,
        decreases ops.len() - i,
    {
        out.push(ops[i].target().clone());
        i = i + 1;
    }
    assert(texts(out@) =~= scope_of(ops@));
    out
}

/// What a run does next, once its rows are decided: `approved` is the answer,
/// where it was asked.
///
/// An interrupted session comes first, and is then all a run does: `plan` shows
/// its rows, and `apply` refuses before any recovery when a write cannot be
/// accounted for, asks otherwise, and once approved recovers and stops. The next
/// run decides.
///
/// While another `apply` holds the state directory, `plan` shows its rows and
/// `apply` refuses: two never write at once.
///
/// It asks only when there is a write to make, and never in [`Mode::Plan`].
/// Declining leaves the report unexecuted and nothing written: nothing is rolled
/// back, no session is opened and no journal is created.
pub fn run(
    mode: Mode,
    report: &Report,
    ops: &Vec<Op>,
    work: &Vec<checkout::Op>,
    approved: Option<bool>,
) -> (r: Turn)
    ensures
        is_next(r, mode, *report, ops@, work@, approved),
{
    if mode == Mode::Plan {
        return Turn::Show;
    }
    if report.apply_running {
        return Turn::Locked;
    }
    if let Some(interrupted) = &report.interrupted {
        let blocked = blocked_of(interrupted);
        if blocked.len() > 0 {
            return Turn::Refuse(blocked);
        }
        return match approved {
            None => Turn::Ask,
            Some(yes) => if yes {
                Turn::Recover
            } else {
                Turn::Show
            },
        };
    }
    if ops.len() == 0 && work.len() == 0 {
        return Turn::Show;
    }
    match approved {
        None => Turn::Ask,
        Some(yes) => if yes {
            Turn::Write(scope(ops))
        } else {
            Turn::Show
        },
    }
}

/// Every write, in order, as the request that makes it. It is handed the writes
/// and nothing else, so it cannot do work `plan` did not announce.
pub fn execute(ops: Vec<Op>) -> (r: Vec<Request>)
    ensures
        r@.len() == ops@.len(),
        forall|i: int| 0 <= i < ops@.len() ==> asks(#[trigger] r@[i], ops@[i]),
{
    let ghost all = ops@;
    let mut ops = ops;
    let mut back: Vec<Request> = Vec::new();
    while ops.len() > 0
        invariant
            ops@ == all.subrange(0, ops@.len() as int),
            ops@.len() + back@.len() == all.len(),
            forall|k: int| 0 <= k < back@.len() ==> asks(#[trigger] back@[k], all[all.len() - 1 - k]),
        decreases ops@.len(),
    {
        let ghost n = ops@.len();
        assert(ops@[n - 1] == all[n - 1]);
        match ops.pop() {
            Some(op) => {
                back.push(op.into_request());
            },
            None => {
                assert(false);
            },
        }
        assert(ops@ =~= all.subrange(0, ops@.len() as int));
    }
    let out = backwards(back);
    assert forall|i: int| 0 <= i < all.len() implies asks(#[trigger] out@[i], all[i]) by {
        assert(out@[i] == back@[all.len() - 1 - i]);
    }
    out
}

/// `plan` writes nothing, recovers nothing and asks nothing.
pub proof fn plan_writes_nothing(
    turn: Turn,
    report: Report,
    ops: Seq<Op>,
    work: Seq<checkout::Op>,
    approved: Option<bool>,
)
    requires
        is_next(turn, Mode::Plan, report, ops, work, approved),
    ensures
        turn is Show,
{
}

/// Nothing is written or recovered that was not approved.
pub proof fn nothing_is_written_unapproved(
    turn: Turn,
    mode: Mode,
    report: Report,
    ops: Seq<Op>,
    work: Seq<checkout::Op>,
    approved: Option<bool>,
)
    requires
        is_next(turn, mode, report, ops, work, approved),
        turn is Write || turn is Recover,
    ensures
        mode == Mode::Apply,
        approved == Some(true),
{
}

/// An interrupted session is all a run does: nothing is written while one
/// stands, whatever was decided and whatever was answered.
pub proof fn nothing_is_written_over_an_interruption(
    turn: Turn,
    mode: Mode,
    report: Report,
    ops: Seq<Op>,
    work: Seq<checkout::Op>,
    approved: Option<bool>,
)
    requires
        is_next(turn, mode, report, ops, work, approved),
        report.interrupted is Some,
    ensures
        turn !is Write,
{
}

/// A session with a write recovery cannot account for rolls nothing back.
pub proof fn a_blocked_session_is_not_recovered(
    turn: Turn,
    mode: Mode,
    report: Report,
    ops: Seq<Op>,
    work: Seq<checkout::Op>,
    approved: Option<bool>,
)
    requires
        is_next(turn, mode, report, ops, work, approved),
        report.interrupted is Some,
        !resolvable(report.interrupted->0),
    ensures
        turn !is Recover,
        turn !is Ask,
{
}

/// Two processes cannot write at once: nothing is written, recovered or asked
/// while another apply holds the state directory, whatever was decided and
/// whatever was answered.
pub proof fn nothing_is_written_while_another_apply_runs(
    turn: Turn,
    mode: Mode,
    report: Report,
    ops: Seq<Op>,
    work: Seq<checkout::Op>,
    approved: Option<bool>,
)
    requires
        is_next(turn, mode, report, ops, work, approved),
        report.apply_running,
    ensures
        turn !is Write,
        turn !is Recover,
        turn !is Ask,
        mode == Mode::Apply ==> turn is Locked,
{
}

/// It asks only when there is something to do.
pub proof fn nothing_is_asked_without_work(
    turn: Turn,
    mode: Mode,
    report: Report,
    ops: Seq<Op>,
    work: Seq<checkout::Op>,
    approved: Option<bool>,
)
    requires
        is_next(turn, mode, report, ops, work, approved),
        report.interrupted is None,
        !report.apply_running,
        ops.len() == 0,
        work.len() == 0,
    ensures
        turn is Show,
{
}

/// What `apply` announced and was told to do, it does: with something to do it
/// asks, and once approved it writes for every write that was decided, in order,
/// and for no other; declined, it shows and writes nothing.
pub proof fn what_is_approved_is_written(
    turn: Turn,
    report: Report,
    ops: Seq<Op>,
    work: Seq<checkout::Op>,
    approved: Option<bool>,
)
    requires
        is_next(turn, Mode::Apply, report, ops, work, approved),
        report.interrupted is None,
        !report.apply_running,
        ops.len() > 0 || work.len() > 0,
    ensures
        turn is Ask <==> approved is None,
        turn is Show <==> approved == Some(false),
        turn is Write <==> approved == Some(true),
        turn matches Turn::Write(scope) ==> scope@.len() == ops.len() && forall|i: int|
            0 <= i < ops.len() ==> (#[trigger] scope@[i]).text@ == ops[i].target.text@,
{
    if let Turn::Write(scope) = turn {
        assert(texts(scope@).len() == scope@.len());
        assert forall|i: int| 0 <= i < ops.len() implies (#[trigger] scope@[i]).text@
            == ops[i].target.text@ by {
            assert(texts(scope@)[i] == scope_of(ops)[i]);
        }
    }
}

/// An interrupted session `apply` can account for is recovered once that was
/// approved, and asked about before; one with a write it cannot account for is
/// refused, whatever was answered, naming every such write in order and no
/// other.
pub proof fn an_interrupted_session_is_recovered_or_refused(
    turn: Turn,
    report: Report,
    ops: Seq<Op>,
    work: Seq<checkout::Op>,
    approved: Option<bool>,
)
    requires
        is_next(turn, Mode::Apply, report, ops, work, approved),
        report.interrupted is Some,
        !report.apply_running,
    ensures
        ({
            let writes = report.interrupted->0.unfinished@;
            let accounted = forall|i: int|
                0 <= i < writes.len() ==> (#[trigger] writes[i]).resolvable;
            &&& turn is Refuse <==> !accounted
            &&& accounted ==> {
                &&& turn is Ask <==> approved is None
                &&& turn is Recover <==> approved == Some(true)
                &&& turn is Show <==> approved == Some(false)
            }
            &&& turn matches Turn::Refuse(blocked) ==> {
                &&& forall|k: int|
                    0 <= k < blocked@.len() ==> (#[trigger] blocked@[k]) < writes.len()
                        && !writes[blocked@[k] as int].resolvable
                &&& forall|i: int|
                    0 <= i < writes.len() && i <= usize::MAX && !(
                    #[trigger] writes[i]).resolvable ==> exists|k: int|
                        0 <= k < blocked@.len() && #[trigger] blocked@[k] == i
                &&& forall|j: int, k: int|
                    0 <= j < k < blocked@.len() ==> (#[trigger] blocked@[j])
                        < #[trigger] blocked@[k]
            }
        }),
{
    let writes = report.interrupted->0.unfinished@;
    if let Turn::Refuse(blocked) = turn {
        assert forall|i: int|
            0 <= i < writes.len() && i <= usize::MAX && !(
            #[trigger] writes[i]).resolvable implies exists|k: int|
            0 <= k < blocked@.len() && #[trigger] blocked@[k] == i by {
            assert(blocked@.contains(i as usize));
            let k = choose|k: int| 0 <= k < blocked@.len() && blocked@[k] == i as usize;
            assert(blocked@[k] == i);
        }
    }
}

/// A stopped external keeps its row, which says why and is blocked.
pub proof fn a_stopped_row_says_why(before: Change, why: Seq<char>, after: Change)
    requires
        is_stopped(before, why, after),
    ensures
        after.action == Action::Blocked,
        after.note matches Some(note) && note@ == why,
        after.target@ == before.target@,
        after.origin == before.origin,
        after.diff == before.diff,
{
}

/// A home is refused if and only if one of its components is `..`.
pub proof fn only_a_home_that_climbs_is_refused(home: Seq<char>, i: int)
    ensures
        0 <= i < components(home).len() && components(home)[i] == ".."@ ==> climbs(home),
        climbs(home) ==> exists|k: int|
            0 <= k < components(home).len() && #[trigger] components(home)[k] == ".."@,
{
}

/// The writes that block a recovery are those it cannot account for, each once,
/// in the order of their rows.
pub proof fn only_what_cannot_be_put_back_blocks_a_recovery(
    interrupted: Interrupted,
    blocked: Seq<usize>,
    i: int,
)
    requires
        are_blocked(interrupted, blocked),
        0 <= i < interrupted.unfinished@.len(),
        interrupted.unfinished@.len() <= usize::MAX,
    ensures
        blocked.contains(i as usize) <==> !interrupted.unfinished@[i].resolvable,
        blocked.len() == 0 <==> resolvable(interrupted),
        forall|j: int, k: int|
            0 <= j < k < blocked.len() ==> (#[trigger] blocked[j]) < #[trigger] blocked[k],
{
    if blocked.contains(i as usize) {
        let k = blocked.index_of(i as usize);
        assert(blocked[k] == i as usize);
    }
    if resolvable(interrupted) && blocked.len() > 0 {
        assert(blocked[0] < interrupted.unfinished@.len());
    }
    if blocked.len() == 0 {
        assert forall|k: int| 0 <= k < interrupted.unfinished@.len() implies (
        #[trigger] interrupted.unfinished@[k]).resolvable by {
            if !interrupted.unfinished@[k].resolvable {
                assert(blocked.contains(k as usize));
            }
        }
    }
}

} // verus!
