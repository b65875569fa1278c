//! What bx wrote that the configuration no longer declares.
//!
//! It is shown, and left exactly as it is: releasing it is `rm`'s.

use crate::plan::external::External;
use crate::plan::rows::{Change, Origin};
use crate::plan::target::Resolution;
use crate::report::Action;
use crate::state::{Ledger, LedgerEntry};
use crate::text::{opt_text, same_text};
use vstd::prelude::*;

verus! {

/// Whether a resolution declares a target.
pub open spec fn declares(resolution: Resolution, target: Seq<char>) -> bool {
    match resolution {
        Resolution::Ready(ready) => ready.path@ == target,
        Resolution::Blocked(held) => held.key@ == target,
    }
}

/// Whether a configuration declares a target, as a file, a directory or an
/// external.
pub open spec fn is_declared(
    resolutions: Seq<Resolution>,
    externals: Seq<External>,
    target: Seq<char>,
) -> bool {
    ||| exists|i: int| 0 <= i < resolutions.len() && #[trigger] declares(resolutions[i], target)
    ||| exists|i: int| 0 <= i < externals.len() && (#[trigger] externals[i]).path@ == target
}

/// The targets some entries hold that a configuration does not declare.
pub open spec fn left_over(
    entries: Seq<LedgerEntry>,
    resolutions: Seq<Resolution>,
    externals: Seq<External>,
) -> Seq<Seq<char>>
    decreases entries.len(),
{
    if entries.len() == 0 {
        Seq::empty()
    } else {
        let rest = left_over(entries.drop_last(), resolutions, externals);
        if is_declared(resolutions, externals, entries.last().path@) {
            rest
        } else {
            rest.push(entries.last().path@)
        }
    }
}

/// What is said of what is no longer declared.
pub open spec fn undeclared_words() -> Seq<char> {
    "bx wrote it, and the configuration no longer declares it; `bx rm` releases it"@
}

/// Whether a change is the row of a target that is no longer declared.
pub open spec fn is_left_over(change: Change, target: Seq<char>, ledger: Seq<char>) -> bool {
    &&& change.target@ == target
    &&& change.origin.file@ == ledger
    &&& change.origin.line == 0
    &&& change.action == Action::Undeclared
    &&& change.diff is None
    &&& opt_text(change.note) == Some(undeclared_words())
}

fn declared(resolutions: &Vec<Resolution>, externals: &Vec<External>, target: &str) -> (r: bool)
    ensures
        r == is_declared(resolutions@, externals@, target@),
{
    let mut i: usize = 0;
    while i < resolutions.len()
        invariant
            i <= resolutions.len(),
            forall|j: int| 0 <= j < i ==> !declares(#[trigger] resolutions@[j], target@),
        decreases resolutions.len() - i,
    {
        let named = match &resolutions[i] {
            Resolution::Ready(ready) => same_text(ready.path.text.as_str(), target),
            Resolution::Blocked(held) => same_text(held.key.as_str(), target),
        };
        if named {
            assert(declares(resolutions@[i as int], target@));
            return true;
        }
        i = i + 1;
    }
    let mut i: usize = 0;
    while i < externals.len()
        invariant
            i <= externals.len(),
            forall|j: int| 0 <= j < resolutions@.len() ==> !declares(#[trigger] resolutions@[j], target@),
            forall|j: int| 0 <= j < i ==> (#[trigger] externals@[j]).path@ != target@,
        decreases externals.len() - i,
    {
        if same_text(externals[i].path.text.as_str(), target) {
            assert(externals@[i as int].path@ == target@);
            return true;
        }
        i = i + 1;
    }
    false
}

/// One row for each target bx wrote that the configuration no longer declares,
/// in the ledger's order. `at` is the ledger, which is all that names them.
pub fn undeclared(
    ledger: &Ledger,
    resolutions: &Vec<Resolution>,
    externals: &Vec<External>,
    at: &str,
) -> (r: Vec<Change>)
    ensures
        ({
            let targets = left_over(ledger.entries@, resolutions@, externals@);
            &&& r@.len() == targets.len()
            &&& forall|i: int|
                0 <= i < targets.len() ==> is_left_over(#[trigger] r@[i], targets[i], at@)
        }),
{
    let mut out: Vec<Change> = Vec::new();
    let mut i: usize = 0;
    assert(ledger.entries@.subrange(0, 0) =~= Seq::<LedgerEntry>::empty());
    while i < ledger.entries.len()
        invariant
            i <= ledger.entries.len(),
            out@.len() == left_over(
                ledger.entries@.subrange(0, i as int),
                resolutions@,
                externals@,
            ).len(),
            forall|k: int|
                0 <= k < out@.len() ==> is_left_over(
                    #[trigger] out@[k],
                    left_over(
                        ledger.entries@.subrange(0, i as int),
                        resolutions@,
                        externals@,
                    )[k],
                    at@,
                ),
        decreases ledger.entries.len() - i,
    {
        let ghost some = ledger.entries@.subrange(0, i + 1);
        assert(some.drop_last() =~= ledger.entries@.subrange(0, i as int));
        assert(some.last() == ledger.entries@[i as int]);
        let target = ledger.entries[i].path.text.as_str();
        if !declared(resolutions, externals, target) {
            let note = "bx wrote it, and the configuration no longer declares it; `bx rm` releases it";
            out.push(
                Change {
                    target: ledger.entries[i].path.text.clone(),
                    origin: Origin::unknown(at),
                    action: Action::Undeclared,
                    diff: None,
                    note: Some(note.to_owned()),
                },
            );
        }
        i = i + 1;
    }
    assert(ledger.entries@.subrange(0, ledger.entries@.len() as int) =~= ledger.entries@);
    out
}

/// Nothing bx wrote is passed over: a target the ledger holds is declared, or
/// has a row that says it no longer is.
pub proof fn everything_bx_wrote_is_accounted_for(
    entries: Seq<LedgerEntry>,
    resolutions: Seq<Resolution>,
    externals: Seq<External>,
    i: int,
)
    requires
        0 <= i < entries.len(),
    ensures
        is_declared(resolutions, externals, entries[i].path@) || left_over(
            entries,
            resolutions,
            externals,
        ).contains(entries[i].path@),
    decreases entries.len(),
{
    let rest = left_over(entries.drop_last(), resolutions, externals);
    let last = entries.last().path@;
    if i < entries.len() - 1 {
        everything_bx_wrote_is_accounted_for(entries.drop_last(), resolutions, externals, i);
        assert(entries.drop_last()[i] == entries[i]);
        if rest.contains(entries[i].path@) {
            let k = rest.index_of(entries[i].path@);
            assert(rest.push(last)[k] == entries[i].path@);
        }
    } else {
        assert(rest.push(last)[rest.len() as int] == last);
    }
}

/// What is no longer declared is left exactly as it is: its row is no write, and
/// keeps no run from being converged.
pub proof fn what_is_undeclared_is_left(change: Change, target: Seq<char>, ledger: Seq<char>)
    requires
        is_left_over(change, target, ledger),
    ensures
        !change.action.pending(),
        !change.action.attention(),
        change.action.settled(),
{
}

/// Only what bx wrote and no longer is declared has such a row: its target is
/// one the ledger holds, no target or blocked key of the configuration spells
/// it, and no external is at it.
pub proof fn only_what_is_undeclared_is_shown_so(
    entries: Seq<LedgerEntry>,
    resolutions: Seq<Resolution>,
    externals: Seq<External>,
    k: int,
)
    requires
        0 <= k < left_over(entries, resolutions, externals).len(),
    ensures
        ({
            let target = left_over(entries, resolutions, externals)[k];
            &&& exists|i: int| 0 <= i < entries.len() && (#[trigger] entries[i]).path.text@ == target
            &&& forall|i: int|
                0 <= i < resolutions.len() ==> match #[trigger] resolutions[i] {
                    Resolution::Ready(ready) => ready.path.text@ != target,
                    Resolution::Blocked(held) => held.key@ != target,
                }
            &&& forall|i: int|
                0 <= i < externals.len() ==> (#[trigger] externals[i]).path.text@ != target
        }),
    decreases entries.len(),
{
    let some = entries.drop_last();
    let rest = left_over(some, resolutions, externals);
    if k < rest.len() {
        only_what_is_undeclared_is_shown_so(some, resolutions, externals, k);
        let i = choose|i: int| 0 <= i < some.len() && (#[trigger] some[i]).path.text@ == rest[k];
        assert(entries[i].path.text@ == rest[k]);
    } else {
        let target = entries.last().path@;
        assert(entries[entries.len() - 1].path.text@ == target);
        assert forall|i: int| 0 <= i < resolutions.len() implies match #[trigger] resolutions[i] {
            Resolution::Ready(ready) => ready.path.text@ != target,
            Resolution::Blocked(held) => held.key@ != target,
        } by {
            assert(!declares(resolutions[i], target));
        }
    }
}

/// What is declared has no such row, and what is not has one for each entry, in
/// the ledger's order.
pub proof fn every_entry_is_judged_by_itself(
    some: Seq<LedgerEntry>,
    more: Seq<LedgerEntry>,
    resolutions: Seq<Resolution>,
    externals: Seq<External>,
)
    ensures
        left_over(some + more, resolutions, externals) == left_over(some, resolutions, externals)
            + left_over(more, resolutions, externals),
    decreases more.len(),
{
    if more.len() > 0 {
        assert((some + more).drop_last() =~= some + more.drop_last());
        every_entry_is_judged_by_itself(some, more.drop_last(), resolutions, externals);
        assert(left_over(some + more, resolutions, externals) =~= left_over(
            some,
            resolutions,
            externals,
        ) + left_over(more, resolutions, externals));
    } else {
        assert(some + more =~= some);
        assert(left_over(some, resolutions, externals) + left_over(more, resolutions, externals)
            =~= left_over(some, resolutions, externals));
    }
}

/// A target that is no longer declared has a row of its own in the ledger's
/// name: undeclared, without a diff, saying how it is released.
pub proof fn what_is_left_over_says_how_it_is_released(
    change: Change,
    target: Seq<char>,
    ledger: Seq<char>,
)
    requires
        is_left_over(change, target, ledger),
    ensures
        change.target@ == target,
        change.origin.file@ == ledger,
        change.origin.line == 0,
        change.action == Action::Undeclared,
        change.diff is None,
        change.note matches Some(note) && note@
            == "bx wrote it, and the configuration no longer declares it; `bx rm` releases it"@,
{
}

} // verus!
