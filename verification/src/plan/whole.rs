//! What holds of a whole run, whatever the order its targets are declared in.

use crate::fs::{content, has_mode, same_observed, Mode, Observed};
use crate::journal::session::Request;
use crate::order::lemma_text_order;
use crate::paths::rendered;
use crate::plan::all::{
    all_decided, decided_in, declared_at, declares, goes_first, in_turn, is_dir, lemma_made,
    lemma_made_grows, lemma_turn_distinct, made, named, Decided,
};
use crate::plan::checkout;
use crate::plan::compare::{compared, unusable};
use crate::plan::decide::{
    a_directory_at_its_mode_is_left, a_second_apply_changes_nothing, asks, decided, entry_of,
    made_bytes, makes_one_region, placed, Facts, Op,
};
use crate::plan::diff::{Diff, DiffKind};
use crate::plan::notes::note_of;
use crate::plan::owned::the_ledger_only_ever_refuses;
use crate::plan::parents::{parent_words, unusable_words};
use crate::plan::rows::{actions_of, exit_of, Change, Mode as Half, Report};
use crate::plan::run::{is_next, Turn};
use crate::plan::target::{Attach, Resolution, Target};
use crate::plan::wanted::{want, Want};
use crate::report::{Action, Exit};
use crate::state::Ledger;
use crate::text::opt_text;
use vstd::prelude::*;

verus! {

/// Whether two diffs show the same.
pub open spec fn same_diff(a: Option<Diff>, b: Option<Diff>) -> bool {
    match (a, b) {
        (None, None) => true,
        (Some(a), Some(b)) => match (a.kind, b.kind) {
            (DiffKind::Text(a), DiffKind::Text(b)) => a@ == b@,
            (a, b) => a == b,
        },
        _ => false,
    }
}

/// Whether two rows say the same.
pub open spec fn same_row(a: Change, b: Change) -> bool {
    &&& a.target@ == b.target@
    &&& a.origin == b.origin
    &&& a.action == b.action
    &&& opt_text(a.note) == opt_text(b.note)
    &&& same_diff(a.diff, b.diff)
}

/// Whether two writes are the same.
pub open spec fn same_write(a: Op, b: Op) -> bool {
    &&& a.target == b.target
    &&& a.dest@ == b.dest@
    &&& made_bytes(a.made) == made_bytes(b.made)
    &&& a.made is Region == b.made is Region
    &&& a.made is Region ==> a.made->Region_1 == b.made->Region_1
    &&& same_observed(a.planned, b.planned)
    &&& a.mode == b.mode
}

/// A decision is settled by what it reads: two made alike come to the same row
/// and the same write.
pub proof fn a_decision_is_settled_by_what_it_reads(
    a: (Change, Option<Op>),
    b: (Change, Option<Op>),
    resolution: Resolution,
    facts: Result<Facts, String>,
    ledger: Ledger,
    home: Seq<char>,
    declared: Seq<(Seq<char>, Mode)>,
)
    requires
        decided(Ok(a), resolution, facts, ledger, home, declared),
        decided(Ok(b), resolution, facts, ledger, home, declared),
    ensures
        same_row(a.0, b.0),
        a.1 is Some == b.1 is Some,
        a.1 is Some ==> same_write(a.1->0, b.1->0),
{
}

/// Whether `p` names every one of `n` places once.
pub open spec fn reorders(p: Seq<int>, n: nat) -> bool {
    &&& p.len() == n
    &&& forall|i: int| 0 <= i < n ==> 0 <= #[trigger] p[i] < n
    &&& forall|i: int, j: int| 0 <= i < j < n ==> #[trigger] p[i] != #[trigger] p[j]
    &&& forall|i: int| 0 <= i < n ==> #[trigger] p.contains(i)
}

/// Whether one configuration is another with its targets in the order `p`, and
/// the order its directories are decided in is the other's.
spec fn reordered(
    first: Seq<Resolution>,
    first_facts: Seq<Result<Facts, String>>,
    second: Seq<Resolution>,
    second_facts: Seq<Result<Facts, String>>,
    home: Seq<char>,
    p: Seq<int>,
) -> bool {
    &&& reorders(p, first.len())
    &&& second.len() == first.len()
    &&& first_facts.len() == first.len()
    &&& second_facts.len() == first.len()
    &&& forall|i: int| 0 <= i < first.len() ==> second[i] == first[#[trigger] p[i]]
    &&& forall|i: int| 0 <= i < first.len() ==> second_facts[i] == first_facts[#[trigger] p[i]]
    &&& forall|a: int, b: int|
        0 <= a < first.len() && 0 <= b < first.len() && is_dir(second[a]) && is_dir(second[b])
            && #[trigger] goes_first(second, home, a, b) ==> goes_first(first, home, p[a], p[b])
}

proof fn lemma_first_once(resolutions: Seq<Resolution>, home: Seq<char>, a: int, b: int)
    requires
        goes_first(resolutions, home, a, b),
    ensures
        !goes_first(resolutions, home, b, a),
{
    let x = resolutions[a]->Ready_0.path@;
    let y = resolutions[b]->Ready_0.path@;
    lemma_text_order(x, y, x);
    lemma_text_order(x, x, x);
    lemma_text_order(y, y, y);
}

/// The directories are decided in the same order, whatever order they are
/// declared in.
proof fn lemma_same_directories(
    first: Seq<Resolution>,
    first_facts: Seq<Result<Facts, String>>,
    second: Seq<Resolution>,
    second_facts: Seq<Result<Facts, String>>,
    home: Seq<char>,
    p: Seq<int>,
    turn: Seq<int>,
    dirs: int,
    other_turn: Seq<int>,
    other_dirs: int,
    k: int,
)
    requires
        reordered(first, first_facts, second, second_facts, home, p),
        in_turn(first, home, turn, dirs),
        in_turn(second, home, other_turn, other_dirs),
        0 <= k,
    ensures
        k < dirs ==> k < other_dirs && p[other_turn[k]] == turn[k],
        k < other_dirs ==> k < dirs,
    decreases k,
{
    if k > 0 {
        lemma_same_directories(
            first,
            first_facts,
            second,
            second_facts,
            home,
            p,
            turn,
            dirs,
            other_turn,
            other_dirs,
            k - 1,
        );
        assert forall|j: int| 0 <= j < k && j < dirs implies j < other_dirs && p[other_turn[j]]
            == turn[j] by {
            lemma_same_directories(
                first,
                first_facts,
                second,
                second_facts,
                home,
                p,
                turn,
                dirs,
                other_turn,
                other_dirs,
                j,
            );
        }
    }
    if k < dirs {
        let x = turn[k];
        assert(p.contains(x));
        let i = choose|i: int| 0 <= i < p.len() && p[i] == x;
        assert(other_turn.contains(i));
        let m = choose|m: int| 0 <= m < other_turn.len() && other_turn[m] == i;
        assert(is_dir(first[x]));
        assert(second[i] == first[p[i]]);
        assert(m < other_dirs);
        if m < k {
            assert(p[other_turn[m]] == turn[m]);
            lemma_turn_distinct(first, home, turn, dirs, m, k);
        }
        assert(k < other_dirs);
        let y = p[other_turn[k]];
        if y != x {
            assert(second[other_turn[k]] == first[p[other_turn[k]]]);
            assert(turn.contains(y));
            let n = choose|n: int| 0 <= n < turn.len() && turn[n] == y;
            assert(n < dirs);
            if n < k {
                assert(p[other_turn[n]] == turn[n]);
                lemma_turn_distinct(second, home, other_turn, other_dirs, n, k);
                assert(other_turn[n] != other_turn[k]);
                if other_turn[n] < other_turn[k] {
                    assert(p[other_turn[n]] != p[other_turn[k]]);
                } else {
                    assert(p[other_turn[k]] != p[other_turn[n]]);
                }
            }
            assert(k < n);
            assert(goes_first(first, home, turn[k], turn[n]));
            assert(k < m);
            assert(goes_first(second, home, other_turn[k], other_turn[m]));
            assert(is_dir(second[other_turn[k]]) && is_dir(second[other_turn[m]]));
            lemma_first_once(first, home, x, y);
        }
    } else if k < other_dirs {
        let y = p[other_turn[k]];
        assert(second[other_turn[k]] == first[p[other_turn[k]]]);
        assert(turn.contains(y));
        let n = choose|n: int| 0 <= n < turn.len() && turn[n] == y;
        assert(n < dirs);
        assert(p[other_turn[n]] == turn[n]);
        lemma_turn_distinct(second, home, other_turn, other_dirs, n, k);
        if other_turn[n] < other_turn[k] {
            assert(p[other_turn[n]] != p[other_turn[k]]);
        } else {
            assert(p[other_turn[k]] != p[other_turn[n]]);
        }
    }
}

/// Only a directory is declared.
proof fn lemma_declared_by_directories(
    resolutions: Seq<Resolution>,
    facts: Seq<Result<Facts, String>>,
    ledger: Ledger,
    home: Seq<char>,
    turn: Seq<int>,
    dirs: int,
    k: int,
)
    requires
        in_turn(resolutions, home, turn, dirs),
        dirs <= k <= turn.len(),
    ensures
        declared_at(resolutions, facts, ledger, home, turn, k) == declared_at(
            resolutions,
            facts,
            ledger,
            home,
            turn,
            dirs,
        ),
    decreases k - dirs,
{
    if k > dirs {
        lemma_declared_by_directories(resolutions, facts, ledger, home, turn, dirs, k - 1);
        assert(!is_dir(resolutions[turn[k - 1]]));
    }
}

/// What is declared when the `k`th directory is decided does not depend on the
/// order of declaration.
proof fn lemma_same_declared(
    first: Seq<Resolution>,
    first_facts: Seq<Result<Facts, String>>,
    second: Seq<Resolution>,
    second_facts: Seq<Result<Facts, String>>,
    ledger: Ledger,
    home: Seq<char>,
    p: Seq<int>,
    turn: Seq<int>,
    dirs: int,
    other_turn: Seq<int>,
    other_dirs: int,
    k: int,
)
    requires
        reordered(first, first_facts, second, second_facts, home, p),
        in_turn(first, home, turn, dirs),
        in_turn(second, home, other_turn, other_dirs),
        0 <= k <= dirs,
    ensures
        declared_at(first, first_facts, ledger, home, turn, k) == declared_at(
            second,
            second_facts,
            ledger,
            home,
            other_turn,
            k,
        ),
    decreases k,
{
    if k > 0 {
        lemma_same_declared(
            first,
            first_facts,
            second,
            second_facts,
            ledger,
            home,
            p,
            turn,
            dirs,
            other_turn,
            other_dirs,
            k - 1,
        );
        lemma_same_directories(
            first,
            first_facts,
            second,
            second_facts,
            home,
            p,
            turn,
            dirs,
            other_turn,
            other_dirs,
            k - 1,
        );
        assert(second[other_turn[k - 1]] == first[p[other_turn[k - 1]]]);
        assert(second_facts[other_turn[k - 1]] == first_facts[p[other_turn[k - 1]]]);
    }
}

/// Where a target of one configuration is decided in the other, with the same
/// result.
proof fn lemma_same_decision(
    first: Seq<Resolution>,
    first_facts: Seq<Result<Facts, String>>,
    second: Seq<Resolution>,
    second_facts: Seq<Result<Facts, String>>,
    ledger: Ledger,
    home: Seq<char>,
    p: Seq<int>,
    one: Decided,
    turn: Seq<int>,
    dirs: int,
    all: Seq<(Change, Option<Op>)>,
    other: Decided,
    other_turn: Seq<int>,
    other_dirs: int,
    other_all: Seq<(Change, Option<Op>)>,
    n: int,
) -> (k: int)
    requires
        reordered(first, first_facts, second, second_facts, home, p),
        decided_in(one, first, first_facts, ledger, home, turn, dirs, all),
        decided_in(other, second, second_facts, ledger, home, other_turn, other_dirs, other_all),
        0 <= n < other_turn.len(),
    ensures
        0 <= k < turn.len(),
        turn[k] == p[other_turn[n]],
        same_row(other_all[n].0, all[k].0),
        other_all[n].1 is Some == all[k].1 is Some,
        other_all[n].1 is Some ==> same_write(other_all[n].1->0, all[k].1->0),
{
    let i = other_turn[n];
    lemma_same_directories(
        first,
        first_facts,
        second,
        second_facts,
        home,
        p,
        turn,
        dirs,
        other_turn,
        other_dirs,
        dirs,
    );
    if dirs > 0 {
        lemma_same_directories(
            first,
            first_facts,
            second,
            second_facts,
            home,
            p,
            turn,
            dirs,
            other_turn,
            other_dirs,
            dirs - 1,
        );
    }
    assert(dirs == other_dirs);
    assert(second[i] == first[p[i]]);
    assert(second_facts[i] == first_facts[p[i]]);
    let k = if n < dirs {
        lemma_same_directories(
            first,
            first_facts,
            second,
            second_facts,
            home,
            p,
            turn,
            dirs,
            other_turn,
            other_dirs,
            n,
        );
        n
    } else {
        assert(turn.contains(p[i]));
        choose|k: int| 0 <= k < turn.len() && turn[k] == p[i]
    };
    if n >= dirs {
        assert(!is_dir(second[other_turn[n]]));
        assert(k >= dirs);
        lemma_declared_by_directories(first, first_facts, ledger, home, turn, dirs, k);
        lemma_declared_by_directories(
            second,
            second_facts,
            ledger,
            home,
            other_turn,
            other_dirs,
            n,
        );
    }
    lemma_same_declared(
        first,
        first_facts,
        second,
        second_facts,
        ledger,
        home,
        p,
        turn,
        dirs,
        other_turn,
        other_dirs,
        if n < dirs {
            n
        } else {
            dirs
        },
    );
    assert(decided(
        Ok(all[k]),
        first[turn[k]],
        first_facts[turn[k]],
        ledger,
        home,
        declared_at(first, first_facts, ledger, home, turn, k),
    ));
    assert(decided(
        Ok(other_all[n]),
        second[other_turn[n]],
        second_facts[other_turn[n]],
        ledger,
        home,
        declared_at(second, second_facts, ledger, home, other_turn, n),
    ));
    a_decision_is_settled_by_what_it_reads(
        other_all[n],
        all[k],
        first[turn[k]],
        first_facts[turn[k]],
        ledger,
        home,
        declared_at(first, first_facts, ledger, home, turn, k),
    );
    k
}

proof fn lemma_made_holds(all: Seq<(Change, Option<Op>)>, k: int) -> (m: int)
    requires
        0 <= k < all.len(),
        all[k].1 is Some,
    ensures
        0 <= m < made(all).len(),
        made(all)[m] == all[k].1->0,
    decreases all.len(),
{
    if k == all.len() - 1 {
        made(all).len() - 1
    } else {
        assert(all.drop_last()[k] == all[k]);
        lemma_made_holds(all.drop_last(), k)
    }
}

/// Two decisions of reordered configurations come to the same rows, writes and
/// declared directories.
proof fn lemma_same_run(
    first: Seq<Resolution>,
    first_facts: Seq<Result<Facts, String>>,
    second: Seq<Resolution>,
    second_facts: Seq<Result<Facts, String>>,
    ledger: Ledger,
    home: Seq<char>,
    p: Seq<int>,
    one: Decided,
    other: Decided,
)
    requires
        reordered(first, first_facts, second, second_facts, home, p),
        all_decided(one, first, first_facts, ledger, home),
        all_decided(other, second, second_facts, ledger, home),
    ensures
        one.changes@.len() == first.len(),
        other.changes@.len() == first.len(),
        forall|i: int|
            0 <= i < first.len() ==> same_row(#[trigger] other.changes@[i], one.changes@[p[i]]),
        forall|j: int|
            0 <= j < other.ops@.len() ==> has_write(one.ops@, #[trigger] other.ops@[j]),
        other.declared@ == one.declared@,
{
    let (turn, dirs, all) = choose|turn: Seq<int>, dirs: int, all: Seq<(Change, Option<Op>)>|
        #[trigger] decided_in(one, first, first_facts, ledger, home, turn, dirs, all);
    let (other_turn, other_dirs, other_all) = choose|
        turn: Seq<int>,
        dirs: int,
        all: Seq<(Change, Option<Op>)>,
    | #[trigger] decided_in(other, second, second_facts, ledger, home, turn, dirs, all);
    assert forall|i: int| 0 <= i < first.len() implies same_row(
        #[trigger] other.changes@[i],
        one.changes@[p[i]],
    ) by {
        assert(other_turn.contains(i));
        let n = choose|n: int| 0 <= n < other_turn.len() && other_turn[n] == i;
        let k = lemma_same_decision(
            first,
            first_facts,
            second,
            second_facts,
            ledger,
            home,
            p,
            one,
            turn,
            dirs,
            all,
            other,
            other_turn,
            other_dirs,
            other_all,
            n,
        );
        assert(other.changes@[other_turn[n]] == other_all[n].0);
        assert(one.changes@[turn[k]] == all[k].0);
    }
    assert forall|j: int| 0 <= j < other.ops@.len() implies has_write(
        one.ops@,
        #[trigger] other.ops@[j],
    ) by {
        let len = other_all.len() as int;
        assert(other_all.subrange(0, len) =~= other_all);
        let n = lemma_made(
            other,
            second,
            second_facts,
            ledger,
            home,
            other_turn,
            other_dirs,
            other_all,
            len,
            j,
        );
        let k = lemma_same_decision(
            first,
            first_facts,
            second,
            second_facts,
            ledger,
            home,
            p,
            one,
            turn,
            dirs,
            all,
            other,
            other_turn,
            other_dirs,
            other_all,
            n,
        );
        let m = lemma_made_holds(all, k);
        assert(same_write(one.ops@[m], other.ops@[j]));
    }
    lemma_same_directories(
        first,
        first_facts,
        second,
        second_facts,
        home,
        p,
        turn,
        dirs,
        other_turn,
        other_dirs,
        dirs,
    );
    if dirs > 0 {
        lemma_same_directories(
            first,
            first_facts,
            second,
            second_facts,
            home,
            p,
            turn,
            dirs,
            other_turn,
            other_dirs,
            dirs - 1,
        );
    }
    lemma_same_declared(
        first,
        first_facts,
        second,
        second_facts,
        ledger,
        home,
        p,
        turn,
        dirs,
        other_turn,
        other_dirs,
        dirs,
    );
    lemma_declared_by_directories(
        first,
        first_facts,
        ledger,
        home,
        turn,
        dirs,
        turn.len() as int,
    );
    lemma_declared_by_directories(
        second,
        second_facts,
        ledger,
        home,
        other_turn,
        other_dirs,
        other_turn.len() as int,
    );
}

/// Whether one of some writes is this one.
pub open spec fn has_write(ops: Seq<Op>, op: Op) -> bool {
    exists|m: int| 0 <= m < ops.len() && same_write(#[trigger] ops[m], op)
}

/// Whether no two directories are declared at one path.
pub open spec fn directories_differ(resolutions: Seq<Resolution>) -> bool {
    forall|i: int, j: int|
        0 <= i < j < resolutions.len() && is_dir(#[trigger] resolutions[i]) && is_dir(
            #[trigger] resolutions[j],
        ) ==> resolutions[i]->Ready_0.path@ != resolutions[j]->Ready_0.path@
}

/// The order of declaration settles nothing: whatever order `p` the targets of a
/// configuration are declared in, each comes to the same row, the same writes are
/// made, and the same directories are declared.
pub proof fn the_order_of_declaration_settles_nothing(
    first: Seq<Resolution>,
    first_facts: Seq<Result<Facts, String>>,
    second: Seq<Resolution>,
    second_facts: Seq<Result<Facts, String>>,
    ledger: Ledger,
    home: Seq<char>,
    p: Seq<int>,
    one: Decided,
    other: Decided,
)
    requires
        reorders(p, first.len()),
        second.len() == first.len(),
        first_facts.len() == first.len(),
        second_facts.len() == first.len(),
        forall|i: int| 0 <= i < first.len() ==> second[i] == first[#[trigger] p[i]],
        forall|i: int| 0 <= i < first.len() ==> second_facts[i] == first_facts[#[trigger] p[i]],
        directories_differ(first),
        all_decided(one, first, first_facts, ledger, home),
        all_decided(other, second, second_facts, ledger, home),
    ensures
        one.changes@.len() == first.len(),
        other.changes@.len() == first.len(),
        forall|i: int|
            0 <= i < first.len() ==> same_row(#[trigger] other.changes@[i], one.changes@[p[i]]),
        forall|j: int|
            0 <= j < other.ops@.len() ==> has_write(one.ops@, #[trigger] other.ops@[j]),
        other.declared@ == one.declared@,
{
    assert forall|a: int, b: int|
        0 <= a < first.len() && 0 <= b < first.len() && is_dir(second[a]) && is_dir(second[b])
            && #[trigger] goes_first(second, home, a, b) implies goes_first(
        first,
        home,
        p[a],
        p[b],
    ) by {
        assert(second[a] == first[p[a]]);
        assert(second[b] == first[p[b]]);
        let x = first[p[a]]->Ready_0.path@;
        lemma_text_order(x, x, x);
        assert(a != b);
        if a < b {
            assert(p[a] != p[b]);
        } else {
            assert(p[b] != p[a]);
        }
        if p[a] < p[b] {
            assert(is_dir(first[p[a]]) && is_dir(first[p[b]]));
        } else {
            assert(is_dir(first[p[b]]) && is_dir(first[p[a]]));
        }
    }
    lemma_same_run(first, first_facts, second, second_facts, ledger, home, p, one, other);
}

/// `plan` and `apply` announce the same: over the same configuration and the same
/// disk the two report the same rows, in the same order, and have the same writes
/// to make, so what is approved is what `plan` showed.
pub proof fn plan_and_apply_show_the_same_rows(
    resolutions: Seq<Resolution>,
    facts: Seq<Result<Facts, String>>,
    ledger: Ledger,
    home: Seq<char>,
    planned: Decided,
    applied: Decided,
    externals: Seq<Change>,
    left: Seq<Change>,
    plan: Report,
    apply: Report,
)
    requires
        facts.len() == resolutions.len(),
        all_decided(planned, resolutions, facts, ledger, home),
        all_decided(applied, resolutions, facts, ledger, home),
        plan.changes@ == planned.changes@ + externals + left,
        apply.changes@ == applied.changes@ + externals + left,
    ensures
        apply.changes@.len() == plan.changes@.len(),
        forall|i: int|
            0 <= i < plan.changes@.len() ==> same_row(
                #[trigger] apply.changes@[i],
                plan.changes@[i],
            ),
        forall|j: int|
            0 <= j < applied.ops@.len() ==> has_write(planned.ops@, #[trigger] applied.ops@[j]),
        forall|j: int|
            0 <= j < planned.ops@.len() ==> has_write(applied.ops@, #[trigger] planned.ops@[j]),
{
    let p = Seq::new(resolutions.len(), |i: int| i);
    assert forall|i: int| 0 <= i < resolutions.len() implies #[trigger] p.contains(i) by {
        assert(p[i] == i);
    }
    lemma_same_run(resolutions, facts, resolutions, facts, ledger, home, p, planned, applied);
    lemma_same_run(resolutions, facts, resolutions, facts, ledger, home, p, applied, planned);
    assert forall|i: int| 0 <= i < plan.changes@.len() implies same_row(
        #[trigger] apply.changes@[i],
        plan.changes@[i],
    ) by {
        if i < resolutions.len() {
            assert(same_row(applied.changes@[i], planned.changes@[p[i]]));
        }
    }
}

/// `apply` changes only what it announced: every request it makes is for the
/// destination of a row that is a create or a modify.
pub proof fn every_write_has_its_row(
    result: Decided,
    resolutions: Seq<Resolution>,
    facts: Seq<Result<Facts, String>>,
    ledger: Ledger,
    home: Seq<char>,
    request: Request,
    j: int,
)
    requires
        all_decided(result, resolutions, facts, ledger, home),
        0 <= j < result.ops@.len(),
        asks(request, result.ops@[j]),
    ensures
        exists|i: int|
            0 <= i < result.changes@.len() && (#[trigger] result.changes@[i]).action.pending()
                && result.changes@[i].target@ == request.target@,
        request.dest@ == rendered(request.target@, home),
{
    let (turn, dirs, all) = choose|turn: Seq<int>, dirs: int, all: Seq<(Change, Option<Op>)>|
        #[trigger] decided_in(result, resolutions, facts, ledger, home, turn, dirs, all);
    let len = all.len() as int;
    assert(all.subrange(0, len) =~= all);
    let k = lemma_made(result, resolutions, facts, ledger, home, turn, dirs, all, len, j);
    assert(decided(
        Ok(all[k]),
        resolutions[turn[k]],
        facts[turn[k]],
        ledger,
        home,
        declared_at(resolutions, facts, ledger, home, turn, k),
    ));
    assert(result.changes@[turn[k]] == all[k].0);
}

/// `apply` leaves out nothing it announced: every row that is a create or a
/// modify has its write.
pub proof fn every_announced_write_is_made(
    result: Decided,
    resolutions: Seq<Resolution>,
    facts: Seq<Result<Facts, String>>,
    ledger: Ledger,
    home: Seq<char>,
    i: int,
)
    requires
        all_decided(result, resolutions, facts, ledger, home),
        0 <= i < result.changes@.len(),
        result.changes@[i].action.pending(),
    ensures
        exists|j: int|
            0 <= j < result.ops@.len() && (#[trigger] result.ops@[j]).target@
                == result.changes@[i].target@,
{
    let (turn, dirs, all) = choose|turn: Seq<int>, dirs: int, all: Seq<(Change, Option<Op>)>|
        #[trigger] decided_in(result, resolutions, facts, ledger, home, turn, dirs, all);
    assert(turn.contains(i));
    let k = choose|k: int| 0 <= k < turn.len() && turn[k] == i;
    assert(result.changes@[turn[k]] == all[k].0);
    assert(decided(
        Ok(all[k]),
        resolutions[turn[k]],
        facts[turn[k]],
        ledger,
        home,
        declared_at(resolutions, facts, ledger, home, turn, k),
    ));
    let m = lemma_made_holds(all, k);
    assert(result.ops@[m].target@ == result.changes@[i].target@);
}

proof fn lemma_declared(
    resolutions: Seq<Resolution>,
    facts: Seq<Result<Facts, String>>,
    ledger: Ledger,
    home: Seq<char>,
    turn: Seq<int>,
    k: int,
    n: int,
    dir: (Seq<char>, Mode),
)
    requires
        0 <= k < n <= turn.len(),
        declares(
            resolutions[turn[k]],
            facts[turn[k]],
            ledger,
            home,
            declared_at(resolutions, facts, ledger, home, turn, k),
        ) == Some(dir),
    ensures
        declared_at(resolutions, facts, ledger, home, turn, n).contains(dir),
    decreases n,
{
    let before = declared_at(resolutions, facts, ledger, home, turn, n - 1);
    let all = declared_at(resolutions, facts, ledger, home, turn, n);
    if k == n - 1 {
        assert(all.last() == dir);
    } else {
        lemma_declared(resolutions, facts, ledger, home, turn, k, n - 1, dir);
        let m = choose|m: int| 0 <= m < before.len() && before[m] == dir;
        assert(all[m] == dir);
    }
}

proof fn lemma_declared_by(
    resolutions: Seq<Resolution>,
    facts: Seq<Result<Facts, String>>,
    ledger: Ledger,
    home: Seq<char>,
    turn: Seq<int>,
    n: int,
    dir: (Seq<char>, Mode),
) -> (k: int)
    requires
        0 <= n <= turn.len(),
        declared_at(resolutions, facts, ledger, home, turn, n).contains(dir),
    ensures
        0 <= k < n,
        declares(
            resolutions[turn[k]],
            facts[turn[k]],
            ledger,
            home,
            declared_at(resolutions, facts, ledger, home, turn, k),
        ) == Some(dir),
    decreases n,
{
    let all = declared_at(resolutions, facts, ledger, home, turn, n);
    let m = choose|m: int| 0 <= m < all.len() && all[m] == dir;
    let before = declared_at(resolutions, facts, ledger, home, turn, n - 1);
    let found = declares(resolutions[turn[n - 1]], facts[turn[n - 1]], ledger, home, before);
    if found is Some && m == before.len() {
        n - 1
    } else {
        assert(before[m] == dir);
        lemma_declared_by(resolutions, facts, ledger, home, turn, n - 1, dir)
    }
}

/// Whether a row says that a directory is left at its declared mode.
pub open spec fn leaves_directory(
    resolution: Resolution,
    change: Change,
    home: Seq<char>,
    dir: (Seq<char>, Mode),
) -> bool {
    &&& is_dir(resolution)
    &&& change.action.pending() || change.action == Action::Unchanged
    &&& dir == (
        rendered(resolution->Ready_0.path@, home),
        Mode::resolved(resolution->Ready_0.mode, true),
    )
}

/// What is declared is exactly the directories that are left at their declared
/// mode: those whose row is a create, a modify or unchanged, each with that mode.
pub proof fn what_is_declared_is_what_is_left_at_its_mode(
    result: Decided,
    resolutions: Seq<Resolution>,
    facts: Seq<Result<Facts, String>>,
    ledger: Ledger,
    home: Seq<char>,
    dir: (Seq<char>, Mode),
)
    requires
        all_decided(result, resolutions, facts, ledger, home),
    ensures
        result.declared@.contains(dir) <==> exists|i: int|
            0 <= i < resolutions.len() && leaves_directory(
                resolutions[i],
                #[trigger] result.changes@[i],
                home,
                dir,
            ),
{
    let (turn, dirs, all) = choose|turn: Seq<int>, dirs: int, all: Seq<(Change, Option<Op>)>|
        #[trigger] decided_in(result, resolutions, facts, ledger, home, turn, dirs, all);
    let n = turn.len() as int;
    if result.declared@.contains(dir) {
        let k = lemma_declared_by(resolutions, facts, ledger, home, turn, n, dir);
        assert(decided(
            Ok(all[k]),
            resolutions[turn[k]],
            facts[turn[k]],
            ledger,
            home,
            declared_at(resolutions, facts, ledger, home, turn, k),
        ));
        assert(leaves_directory(resolutions[turn[k]], result.changes@[turn[k]], home, dir));
    }
    if exists|i: int|
        0 <= i < resolutions.len() && leaves_directory(
            resolutions[i],
            #[trigger] result.changes@[i],
            home,
            dir,
        ) {
        let i = choose|i: int|
            0 <= i < resolutions.len() && leaves_directory(
                resolutions[i],
                #[trigger] result.changes@[i],
                home,
                dir,
            );
        assert(turn.contains(i));
        let k = choose|k: int| 0 <= k < turn.len() && turn[k] == i;
        assert(result.changes@[turn[k]] == all[k].0);
        assert(decided(
            Ok(all[k]),
            resolutions[turn[k]],
            facts[turn[k]],
            ledger,
            home,
            declared_at(resolutions, facts, ledger, home, turn, k),
        ));
        lemma_declared(resolutions, facts, ledger, home, turn, k, n, dir);
    }
}

/// What is written for a resolution goes where the resolution says, and is a
/// directory only where it asks for one.
proof fn lemma_op_of(
    outcome: (Change, Option<Op>),
    resolution: Resolution,
    facts: Result<Facts, String>,
    ledger: Ledger,
    home: Seq<char>,
    declared: Seq<(Seq<char>, Mode)>,
)
    requires
        decided(Ok(outcome), resolution, facts, ledger, home, declared),
        outcome.1 is Some,
    ensures
        named(resolution) == outcome.1->0.target@,
        outcome.1->0.made !is Dir ==> !is_dir(resolution),
{
}

/// Files are written in the order they are declared in.
pub proof fn files_are_written_as_they_are_declared(
    result: Decided,
    resolutions: Seq<Resolution>,
    facts: Seq<Result<Facts, String>>,
    ledger: Ledger,
    home: Seq<char>,
    i: int,
    j: int,
)
    requires
        all_decided(result, resolutions, facts, ledger, home),
        0 <= i < j < result.ops@.len(),
        result.ops@[i].made !is Dir,
    ensures
        exists|a: int, b: int|
            0 <= a < b < resolutions.len() && named(#[trigger] resolutions[a])
                == result.ops@[i].target@ && named(#[trigger] resolutions[b])
                == result.ops@[j].target@,
{
    let (turn, dirs, all) = choose|turn: Seq<int>, dirs: int, all: Seq<(Change, Option<Op>)>|
        #[trigger] decided_in(result, resolutions, facts, ledger, home, turn, dirs, all);
    let n = all.len() as int;
    assert(all.subrange(0, n) =~= all);
    let a = lemma_made(result, resolutions, facts, ledger, home, turn, dirs, all, n, i);
    let b = lemma_made(result, resolutions, facts, ledger, home, turn, dirs, all, n, j);
    if b <= a {
        lemma_made_grows(all, b, a);
    }
    lemma_op_of(
        all[a],
        resolutions[turn[a]],
        facts[turn[a]],
        ledger,
        home,
        declared_at(resolutions, facts, ledger, home, turn, a),
    );
    lemma_op_of(
        all[b],
        resolutions[turn[b]],
        facts[turn[b]],
        ledger,
        home,
        declared_at(resolutions, facts, ledger, home, turn, b),
    );
    assert(turn[a] < turn[b]);
}

/// Whether what is at a destination is what a write left there.
pub open spec fn holds_write(op: Op, observed: Observed) -> bool {
    &&& unusable(observed) is None
    &&& observed.mode == Some(op.mode)
    &&& match made_bytes(op.made) {
        Some(bytes) => observed.kind is File && content(observed) == Some(bytes),
        None => observed.kind is Dir,
    }
}

/// Whether the disk is as a run that wrote everything it decided left it: each
/// destination holds what was written there, and one that nothing was written to
/// is as it was.
pub open spec fn left_as_decided(
    result: Decided,
    resolutions: Seq<Resolution>,
    before: Seq<Result<Facts, String>>,
    after: Seq<Result<Facts, String>>,
) -> bool {
    &&& after.len() == resolutions.len()
    &&& forall|i: int|
        0 <= i < resolutions.len() ==> (#[trigger] after[i]) is Ok && before[i] is Ok && has_mode(
            before[i]->Ok_0.observed,
        )
    &&& forall|i: int, j: int|
        0 <= i < resolutions.len() && 0 <= j < result.ops@.len() && (
        #[trigger] resolutions[i]) is Ready && resolutions[i]->Ready_0.path
            == (#[trigger] result.ops@[j]).target ==> holds_write(
            result.ops@[j],
            after[i]->Ok_0.observed,
        )
    &&& forall|i: int|
        0 <= i < resolutions.len() && (#[trigger] result.changes@[i]).action == Action::Unchanged
            ==> same_observed(after[i]->Ok_0.observed, before[i]->Ok_0.observed)
}

/// Whether every target of a configuration can be written twice alike: one that
/// goes into a region makes one region.
pub open spec fn all_make_one_region(resolutions: Seq<Resolution>) -> bool {
    forall|i: int|
        0 <= i < resolutions.len() && (#[trigger] resolutions[i]) is Ready ==> (want(
            resolutions[i]->Ready_0,
        ) matches Want::Bytes { bytes } ==> makes_one_region(resolutions[i]->Ready_0, bytes))
}

/// A target that a run left as it decided is found so by the next.
proof fn lemma_found_as_left(
    target: Target,
    first: (Change, Option<Op>),
    before: Facts,
    ledger: Ledger,
    home: Seq<char>,
    declared: Seq<(Seq<char>, Mode)>,
    second: (Change, Option<Op>),
    after: Facts,
    next_ledger: Ledger,
    next_declared: Seq<(Seq<char>, Mode)>,
)
    requires
        decided(Ok(first), Resolution::Ready(target), Ok(before), ledger, home, declared),
        decided(
            Ok(second),
            Resolution::Ready(target),
            Ok(after),
            next_ledger,
            home,
            next_declared,
        ),
        first.0.action.pending() || first.0.action == Action::Unchanged,
        has_mode(before.observed),
        first.1 is Some ==> holds_write(first.1->0, after.observed),
        first.0.action == Action::Unchanged ==> same_observed(after.observed, before.observed),
        want(target) matches Want::Bytes { bytes } ==> makes_one_region(target, bytes),
    ensures
        second.0.action == Action::Unchanged,
        second.1 is None,
{
    let entry = entry_of(ledger, target.path@);
    match want(target) {
        Want::Bytes { bytes } => {
            let (whole, mode) = placed(target, before.observed, bytes)->Ok_0;
            let found = compared(before.observed, Some(whole), mode, home);
            let own = match unusable_words(before.observed, home) {
                Some(reason) => Some(reason),
                None => found.note,
            };
            let above = match parent_words(before.observed, mode, home, declared) {
                Some(note) => note,
                None => found.parent_note,
            };
            let note = note_of(seq![own, above]);
            let comment = match target.attach {
                Attach::Region { comment } => comment,
                _ => '#',
            };
            the_ledger_only_ever_refuses(found.action, before.observed, entry, comment, note);
            assert(first.0.action == Action::Unchanged ==> found.action == Action::Unchanged);
            a_second_apply_changes_nothing(
                target,
                bytes,
                before.observed,
                second.0,
                second.1,
                after,
                next_ledger,
                home,
                next_declared,
            );
        },
        Want::Dir => {
            let mode = Mode::resolved(target.mode, true);
            let found = compared(before.observed, None, mode, home);
            let note = match unusable_words(before.observed, home) {
                Some(reason) => Some(reason),
                None => found.note,
            };
            the_ledger_only_ever_refuses(found.action, before.observed, entry, '#', note);
            a_directory_at_its_mode_is_left(
                target,
                second.0,
                second.1,
                after,
                next_ledger,
                home,
                next_declared,
            );
        },
        _ => {},
    }
}

/// Running apply twice changes nothing the second time: where the first run wrote
/// everything it decided and nothing else touched the disk since, the second
/// finds every target as it should be, has nothing to write, asks nothing, writes
/// nothing and exits converged.
///
/// A region body that itself holds a delimiter line, and a newline as the comment
/// character, are left out: neither makes one region.
pub proof fn a_second_run_changes_nothing(
    resolutions: Seq<Resolution>,
    before: Seq<Result<Facts, String>>,
    ledger: Ledger,
    first: Decided,
    after: Seq<Result<Facts, String>>,
    next_ledger: Ledger,
    second: Decided,
    home: Seq<char>,
    externals: Seq<Change>,
    left: Seq<Change>,
    report: Report,
    work: Seq<checkout::Op>,
    turn: Turn,
    approved: Option<bool>,
)
    requires
        before.len() == resolutions.len(),
        all_decided(first, resolutions, before, ledger, home),
        forall|i: int|
            0 <= i < first.changes@.len() ==> (#[trigger] first.changes@[i]).action.pending()
                || first.changes@[i].action == Action::Unchanged,
        left_as_decided(first, resolutions, before, after),
        all_make_one_region(resolutions),
        all_decided(second, resolutions, after, next_ledger, home),
        report.changes@ == second.changes@ + externals + left,
        report.interrupted is None,
        !report.apply_running,
        !report.executed,
        forall|i: int| 0 <= i < externals.len() ==> (#[trigger] externals[i]).action.settled(),
        forall|i: int| 0 <= i < left.len() ==> (#[trigger] left[i]).action.settled(),
        work.len() == 0,
        is_next(turn, Half::Apply, report, second.ops@, work, approved),
    ensures
        forall|i: int|
            0 <= i < second.changes@.len() ==> (#[trigger] second.changes@[i]).action
                == Action::Unchanged,
        second.ops@.len() == 0,
        turn is Show,
        exit_of(report, Half::Apply) == Exit::Converged,
{
    let (turns, dirs, all) = choose|turn: Seq<int>, dirs: int, all: Seq<(Change, Option<Op>)>|
        #[trigger] decided_in(first, resolutions, before, ledger, home, turn, dirs, all);
    let (next_turns, next_dirs, next_all) = choose|
        turn: Seq<int>,
        dirs: int,
        all: Seq<(Change, Option<Op>)>,
    | #[trigger] decided_in(second, resolutions, after, next_ledger, home, turn, dirs, all);
    assert forall|n: int| 0 <= n < next_all.len() implies (#[trigger] next_all[n]).0.action
        == Action::Unchanged && next_all[n].1 is None by {
        let i = next_turns[n];
        assert(turns.contains(i));
        let k = choose|k: int| 0 <= k < turns.len() && turns[k] == i;
        assert(first.changes@[turns[k]] == all[k].0);
        assert(after[i] is Ok);
        let declared = declared_at(resolutions, before, ledger, home, turns, k);
        let next_declared = declared_at(resolutions, after, next_ledger, home, next_turns, n);
        assert(decided(Ok(all[k]), resolutions[turns[k]], before[turns[k]], ledger, home, declared));
        assert(decided(
            Ok(next_all[n]),
            resolutions[next_turns[n]],
            after[next_turns[n]],
            next_ledger,
            home,
            next_declared,
        ));
        assert(first.changes@[i].action.pending() || first.changes@[i].action
            == Action::Unchanged);
        assert(resolutions[i] is Ready);
        let target = resolutions[i]->Ready_0;
        if all[k].1 is Some {
            let m = lemma_made_holds(all, k);
            assert(first.ops@[m] == all[k].1->0);
            assert(target.path == first.ops@[m].target);
            assert(holds_write(first.ops@[m], after[i]->Ok_0.observed));
        }
        lemma_found_as_left(
            target,
            all[k],
            before[i]->Ok_0,
            ledger,
            home,
            declared,
            next_all[n],
            after[i]->Ok_0,
            next_ledger,
            next_declared,
        );
    }
    assert forall|i: int| 0 <= i < second.changes@.len() implies (
    #[trigger] second.changes@[i]).action == Action::Unchanged by {
        assert(next_turns.contains(i));
        let n = choose|n: int| 0 <= n < next_turns.len() && next_turns[n] == i;
        assert(second.changes@[next_turns[n]] == next_all[n].0);
    }
    if second.ops@.len() > 0 {
        let len = next_all.len() as int;
        assert(next_all.subrange(0, len) =~= next_all);
        let n = lemma_made(
            second,
            resolutions,
            after,
            next_ledger,
            home,
            next_turns,
            next_dirs,
            next_all,
            len,
            0,
        );
        assert(next_all[n].1 is Some);
    }
    let actions = actions_of(report.changes@);
    assert forall|i: int| 0 <= i < actions.len() implies (#[trigger] actions[i]).settled() by {
        let m = second.changes@.len() as int;
        let e = externals.len() as int;
        if i < m {
            assert(report.changes@[i] == second.changes@[i]);
        } else if i < m + e {
            assert(report.changes@[i] == externals[i - m]);
        } else {
            assert(report.changes@[i] == left[i - m - e]);
        }
    }
}

} // verus!
