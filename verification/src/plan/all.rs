//! A whole configuration, decided in the order its writes are made.

use crate::fs::Mode;
use crate::list::backwards;
use crate::order::{is_text_before, lemma_text_order, text_before};
use crate::paths::{components, depth, parent, parent_of, render, rendered};
use crate::plan::decide::{decide, decided, dir_verdict, Ctx, Facts, Op};
use crate::plan::error::Error;
use crate::plan::parents::Declared;
use crate::plan::rows::Change;
use crate::plan::target::{Body, Resolution};
use crate::plan::wanted::{is_unread, want, wanted, Want, Wanted};
use crate::report::Action;
use crate::state::Ledger;
use crate::text::same_text;
use vstd::prelude::*;

verus! {

/// Whether a decision reads what the program found at the destination.
pub open spec fn reads_facts(resolution: Resolution, home: Seq<char>) -> bool {
    match resolution {
        Resolution::Blocked(_) => false,
        Resolution::Ready(target) => match want(target) {
            Want::Bytes { .. } => true,
            Want::Dir => parent(rendered(target.path@, home)) is Some,
            _ => false,
        },
    }
}

/// Where the program is to look before a target can be decided, if anywhere.
///
/// # Errors
///
/// [`Error::Body`] when the target's body could not be read.
pub fn to_observe(resolution: &Resolution, home: &str) -> (r: Result<Option<String>, Error>)
    ensures
        match *resolution {
            Resolution::Blocked(_) => r matches Ok(None),
            Resolution::Ready(target) => match want(target) {
                Want::Unread { path, source } => r matches Err(error) && is_unread(
                    error,
                    target.origin,
                    path,
                    source,
                ),
                _ => if reads_facts(*resolution, home@) {
                    r matches Ok(Some(dest)) && dest@ == rendered(target.path@, home@)
                } else {
                    r matches Ok(None)
                },
            },
        },
{
    let target = match resolution {
        Resolution::Blocked(_) => {
            return Ok(None);
        },
        Resolution::Ready(target) => target,
    };
    let dest = render(target.path.text.as_str(), home);
    match wanted(target) {
        Err(error) => Err(error),
        Ok(Wanted::Blocked(_)) => Ok(None),
        Ok(Wanted::Dir) => if parent_of(dest.as_str()).is_none() {
            Ok(None)
        } else {
            Ok(Some(dest))
        },
        Ok(Wanted::Bytes(_)) => Ok(Some(dest)),
    }
}

/// Everything [`decide_all`] decided.
#[derive(Debug, PartialEq, Eq)]
pub struct Decided {
    /// One row per target, in configuration order.
    pub changes: Vec<Change>,
    /// The writes, in the order `apply` makes them: every directory first,
    /// shallowest first, then every file in configuration order.
    pub ops: Vec<Op>,
    /// The directories the session is to declare before its first write.
    pub declared: Declared,
}

/// Whether a resolution is a directory target.
pub open spec fn is_dir(resolution: Resolution) -> bool {
    match resolution {
        Resolution::Ready(target) => target.body is Dir,
        Resolution::Blocked(_) => false,
    }
}

/// Whether one directory target is decided before another: the shallower one,
/// or the one spelled first, or the one declared first.
pub open spec fn goes_first(
    resolutions: Seq<Resolution>,
    home: Seq<char>,
    a: int,
    b: int,
) -> bool {
    let first = resolutions[a]->Ready_0.path@;
    let second = resolutions[b]->Ready_0.path@;
    let above = components(rendered(first, home)).len();
    let below = components(rendered(second, home)).len();
    above < below || (above == below && (text_before(first, second) || (first == second && a < b)))
}

/// The order some targets are decided in: directories first, shallowest first,
/// then the rest in configuration order, each once.
pub open spec fn in_turn(
    resolutions: Seq<Resolution>,
    home: Seq<char>,
    turn: Seq<int>,
    dirs: int,
) -> bool {
    &&& turn.len() == resolutions.len()
    &&& 0 <= dirs <= turn.len()
    &&& forall|k: int|
        0 <= k < turn.len() ==> 0 <= (#[trigger] turn[k]) < resolutions.len() && (is_dir(
            resolutions[turn[k]],
        ) <==> k < dirs)
    &&& forall|i: int| 0 <= i < resolutions.len() ==> #[trigger] turn.contains(i)
    &&& forall|j: int, k: int|
        0 <= j < k < dirs ==> goes_first(
            resolutions,
            home,
            #[trigger] turn[j],
            #[trigger] turn[k],
        )
    &&& forall|j: int, k: int|
        dirs <= j < k < turn.len() ==> (#[trigger] turn[j]) < #[trigger] turn[k]
}

/// The directory a decision leaves at its declared mode, if it does.
pub open spec fn declares(
    resolution: Resolution,
    facts: Result<Facts, String>,
    ledger: Ledger,
    home: Seq<char>,
    declared: Seq<(Seq<char>, Mode)>,
) -> Option<(Seq<char>, Mode)> {
    match resolution {
        Resolution::Blocked(_) => None,
        Resolution::Ready(target) => if want(target) is Dir && reads_facts(resolution, home)
            && facts is Ok {
            let action = dir_verdict(target, facts->Ok_0, ledger, home, declared).0;
            if action.pending() || action == Action::Unchanged {
                Some((rendered(target.path@, home), Mode::resolved(target.mode, true)))
            } else {
                None
            }
        } else {
            None
        },
    }
}

/// The directories that are declared once the first `k` decisions are made.
pub open spec fn declared_at(
    resolutions: Seq<Resolution>,
    facts: Seq<Result<Facts, String>>,
    ledger: Ledger,
    home: Seq<char>,
    turn: Seq<int>,
    k: int,
) -> Seq<(Seq<char>, Mode)>
    decreases k,
{
    if k <= 0 {
        Seq::empty()
    } else {
        let before = declared_at(resolutions, facts, ledger, home, turn, k - 1);
        let i = turn[k - 1];
        match declares(resolutions[i], facts[i], ledger, home, before) {
            Some(dir) => before.push(dir),
            None => before,
        }
    }
}

/// The writes of some decisions, in order.
pub open spec fn made(all: Seq<(Change, Option<Op>)>) -> Seq<Op>
    decreases all.len(),
{
    if all.len() == 0 {
        Seq::empty()
    } else {
        match all.last().1 {
            Some(op) => made(all.drop_last()).push(op),
            None => made(all.drop_last()),
        }
    }
}

/// Whether a target cannot be decided.
pub open spec fn stops(
    resolution: Resolution,
    facts: Result<Facts, String>,
    home: Seq<char>,
) -> bool {
    (reads_facts(resolution, home) && facts is Err) || (resolution is Ready && want(
        resolution->Ready_0,
    ) is Unread)
}

/// Whether everything was decided, in this order, with these results.
pub open spec fn decided_in(
    result: Decided,
    resolutions: Seq<Resolution>,
    facts: Seq<Result<Facts, String>>,
    ledger: Ledger,
    home: Seq<char>,
    turn: Seq<int>,
    dirs: int,
    all: Seq<(Change, Option<Op>)>,
) -> bool {
    &&& in_turn(resolutions, home, turn, dirs)
    &&& all.len() == turn.len()
    &&& forall|k: int|
        0 <= k < all.len() ==> decided(
            Ok(#[trigger] all[k]),
            resolutions[turn[k]],
            facts[turn[k]],
            ledger,
            home,
            declared_at(resolutions, facts, ledger, home, turn, k),
        )
    &&& result.changes@.len() == resolutions.len()
    &&& forall|k: int| 0 <= k < all.len() ==> result.changes@[turn[k]] == (#[trigger] all[k]).0
    &&& result.ops@ == made(all)
    &&& result.declared@ == declared_at(
        resolutions,
        facts,
        ledger,
        home,
        turn,
        turn.len() as int,
    )
}

/// Whether the decisions stopped with this error, at the `k`th of them.
pub open spec fn stopped_in(
    error: Error,
    resolutions: Seq<Resolution>,
    facts: Seq<Result<Facts, String>>,
    ledger: Ledger,
    home: Seq<char>,
    turn: Seq<int>,
    dirs: int,
    k: int,
) -> bool {
    &&& in_turn(resolutions, home, turn, dirs)
    &&& 0 <= k < turn.len()
    &&& forall|j: int|
        0 <= j < k ==> !stops(resolutions[#[trigger] turn[j]], facts[turn[j]], home)
    &&& stops(resolutions[turn[k]], facts[turn[k]], home)
    &&& decided(
        Err(error),
        resolutions[turn[k]],
        facts[turn[k]],
        ledger,
        home,
        declared_at(resolutions, facts, ledger, home, turn, k),
    )
}

fn is_dir_target(resolution: &Resolution) -> (r: bool)
    ensures
        r == is_dir(*resolution),
{
    match resolution {
        Resolution::Ready(target) => match &target.body {
            Body::Dir => true,
            _ => false,
        },
        Resolution::Blocked(_) => false,
    }
}

fn before(resolutions: &Vec<Resolution>, home: &str, a: usize, b: usize) -> (r: bool)
    requires
        a < b < resolutions@.len(),
        is_dir(resolutions@[a as int]),
        is_dir(resolutions@[b as int]),
    ensures
        r == goes_first(resolutions@, home@, a as int, b as int),
        r || goes_first(resolutions@, home@, b as int, a as int),
{
    match (&resolutions[a], &resolutions[b]) {
        (Resolution::Ready(first), Resolution::Ready(second)) => {
            let above = depth(render(first.path.text.as_str(), home).as_str());
            let below = depth(render(second.path.text.as_str(), home).as_str());
            proof {
                lemma_text_order(first.path@, second.path@, second.path@);
                lemma_text_order(second.path@, first.path@, first.path@);
            }
            above < below || (above == below && (is_text_before(
                first.path.text.as_str(),
                second.path.text.as_str(),
            ) || same_text(first.path.text.as_str(), second.path.text.as_str())))
        },
        _ => {
            assert(false);
            vstd::pervasive::unreached()
        },
    }
}

proof fn lemma_goes_first(resolutions: Seq<Resolution>, home: Seq<char>, a: int, b: int, c: int)
    requires
        goes_first(resolutions, home, a, b),
        goes_first(resolutions, home, b, c),
    ensures
        goes_first(resolutions, home, a, c),
{
    lemma_text_order(
        resolutions[a]->Ready_0.path@,
        resolutions[b]->Ready_0.path@,
        resolutions[c]->Ready_0.path@,
    );
}

/// Some indices as numbers.
pub open spec fn indices(some: Seq<usize>) -> Seq<int> {
    Seq::new(some.len(), |k: int| some[k] as int)
}

/// The directory targets among the first `n`, in the order they are decided in.
spec fn dirs_among(
    resolutions: Seq<Resolution>,
    home: Seq<char>,
    dirs: Seq<usize>,
    n: int,
) -> bool {
    &&& forall|k: int| 0 <= k < dirs.len() ==> (#[trigger] dirs[k]) < n && is_dir(
        resolutions[dirs[k] as int],
    )
    &&& forall|i: int| 0 <= i < n && is_dir(#[trigger] resolutions[i]) ==> dirs.contains(i as usize)
    &&& forall|j: int, k: int|
        0 <= j < k < dirs.len() ==> goes_first(
            resolutions,
            home,
            (#[trigger] dirs[j]) as int,
            (#[trigger] dirs[k]) as int,
        )
}

/// The targets among the first `n` that are no directories, in order.
spec fn others_among(resolutions: Seq<Resolution>, others: Seq<usize>, n: int) -> bool {
    &&& forall|k: int| 0 <= k < others.len() ==> (#[trigger] others[k]) < n && !is_dir(
        resolutions[others[k] as int],
    )
    &&& forall|i: int|
        0 <= i < n && !is_dir(#[trigger] resolutions[i]) ==> others.contains(i as usize)
    &&& forall|j: int, k: int|
        0 <= j < k < others.len() ==> (#[trigger] others[j]) < #[trigger] others[k]
}

fn place_dir(resolutions: &Vec<Resolution>, home: &str, dirs: &mut Vec<usize>, i: usize)
    requires
        i < resolutions@.len(),
        is_dir(resolutions@[i as int]),
        dirs_among(resolutions@, home@, old(dirs)@, i as int),
    ensures
        dirs_among(resolutions@, home@, final(dirs)@, i + 1),
        final(dirs)@.len() == old(dirs)@.len() + 1,
{
    let mut p: usize = 0;
    while p < dirs.len() && before(resolutions, home, dirs[p], i)
        invariant
            p <= dirs.len(),
            i < resolutions@.len(),
            is_dir(resolutions@[i as int]),
            dirs_among(resolutions@, home@, dirs@, i as int),
            forall|k: int|
                0 <= k < p ==> goes_first(
                    resolutions@,
                    home@,
                    (#[trigger] dirs@[k]) as int,
                    i as int,
                ),
        decreases dirs.len() - p,
    {
        p = p + 1;
    }
    let ghost old_dirs = dirs@;
    proof {
        assert forall|k: int| p <= k < old_dirs.len() implies goes_first(
            resolutions@,
            home@,
            i as int,
            (#[trigger] old_dirs[k]) as int,
        ) by {
            assert(goes_first(resolutions@, home@, i as int, old_dirs[p as int] as int));
            if p < k {
                lemma_goes_first(
                    resolutions@,
                    home@,
                    i as int,
                    old_dirs[p as int] as int,
                    old_dirs[k] as int,
                );
            }
        }
    }
    dirs.insert(p, i);
    proof {
        assert(dirs@ == old_dirs.insert(p as int, i));
        assert(dirs@[p as int] == i);
        assert forall|k: int| 0 <= k < dirs@.len() implies (#[trigger] dirs@[k]) < i + 1 && is_dir(
            resolutions@[dirs@[k] as int],
        ) by {
            if k < p {
                assert(dirs@[k] == old_dirs[k]);
            } else if k > p {
                assert(dirs@[k] == old_dirs[k - 1]);
            }
        }
        assert forall|m: int| 0 <= m < i + 1 && is_dir(#[trigger] resolutions@[m]) implies dirs@.contains(
            m as usize,
        ) by {
            if m < i {
                let k = choose|k: int| 0 <= k < old_dirs.len() && old_dirs[k] == m as usize;
                assert(old_dirs.contains(m as usize));
                if k < p {
                    assert(dirs@[k] == old_dirs[k]);
                } else {
                    assert(dirs@[k + 1] == old_dirs[k]);
                }
            }
        }
        assert forall|j: int, k: int| 0 <= j < k < dirs@.len() implies goes_first(
            resolutions@,
            home@,
            (#[trigger] dirs@[j]) as int,
            (#[trigger] dirs@[k]) as int,
        ) by {
            let a = if j < p { j } else { j - 1 };
            let b = if k < p { k } else { k - 1 };
            if j != p {
                assert(dirs@[j] == old_dirs[a]);
            }
            if k != p {
                assert(dirs@[k] == old_dirs[b]);
            }
        }
    }
}

/// The order some targets are decided in, and how many of them are directories.
fn turns(resolutions: &Vec<Resolution>, home: &str) -> (r: (Vec<usize>, usize))
    ensures
        in_turn(resolutions@, home@, indices(r.0@), r.1 as int),
{
    let mut dirs: Vec<usize> = Vec::new();
    let mut others: Vec<usize> = Vec::new();
    let mut i: usize = 0;
    while i < resolutions.len()
        invariant
            i <= resolutions.len(),
            dirs@.len() + others@.len() == i,
            dirs_among(resolutions@, home@, dirs@, i as int),
            others_among(resolutions@, others@, i as int),
        decreases resolutions.len() - i,
    {
        let ghost old_others = others@;
        if is_dir_target(&resolutions[i]) {
            place_dir(resolutions, home, &mut dirs, i);
        } else {
            others.push(i);
            proof {
                assert(others@[old_others.len() as int] == i);
                assert forall|m: int| 0 <= m < i + 1 && !is_dir(#[trigger] resolutions@[m]) implies others@.contains(
                    m as usize,
                ) by {
                    if m < i {
                        assert(old_others.contains(m as usize));
                        let k = choose|k: int| 0 <= k < old_others.len() && old_others[k] == m as usize;
                        assert(others@[k] == old_others[k]);
                    }
                }
            }
        }
        i = i + 1;
    }
    let count = dirs.len();
    let ghost first = dirs@;
    let ghost second = others@;
    let mut turn = dirs;
    turn.append(&mut others);
    proof {
        let all = indices(turn@);
        assert(turn@ =~= first + second);
        assert forall|k: int| 0 <= k < all.len() implies 0 <= (#[trigger] all[k]) < resolutions@.len()
            && (is_dir(resolutions@[all[k]]) <==> k < count) by {
            if k < count {
                assert(all[k] == first[k]);
            } else {
                assert(all[k] == second[k - count]);
            }
        }
        assert forall|m: int| 0 <= m < resolutions@.len() implies #[trigger] all.contains(m) by {
            if is_dir(resolutions@[m]) {
                assert(first.contains(m as usize));
                let k = choose|k: int| 0 <= k < first.len() && first[k] == m as usize;
                assert(all[k] == m);
            } else {
                assert(second.contains(m as usize));
                let k = choose|k: int| 0 <= k < second.len() && second[k] == m as usize;
                assert(all[count + k] == m);
            }
        }
        assert forall|j: int, k: int| 0 <= j < k < count implies goes_first(
            resolutions@,
            home@,
            #[trigger] all[j],
            #[trigger] all[k],
        ) by {
            assert(all[j] == first[j]);
            assert(all[k] == first[k]);
        }
        assert forall|j: int, k: int| count <= j < k < all.len() implies (#[trigger] all[j])
            < #[trigger] all[k] by {
            assert(all[j] == second[j - count]);
            assert(all[k] == second[k - count]);
        }
    }
    (turn, count)
}

/// A target is decided once.
pub proof fn lemma_turn_distinct(
    resolutions: Seq<Resolution>,
    home: Seq<char>,
    turn: Seq<int>,
    dirs: int,
    j: int,
    k: int,
)
    requires
        in_turn(resolutions, home, turn, dirs),
        0 <= j < k < turn.len(),
    ensures
        turn[j] != turn[k],
{
    if k < dirs {
        assert(goes_first(resolutions, home, turn[j], turn[k]));
        let path = resolutions[turn[j]]->Ready_0.path@;
        lemma_text_order(path, path, path);
    } else if j >= dirs {
        assert(turn[j] < turn[k]);
    }
}

/// The directory a decision leaves at its declared mode, if it does.
fn declared_dir(resolution: &Resolution, change: &Change, home: &str) -> (r: Option<
    (String, Mode),
>)
    ensures
        match *resolution {
            Resolution::Ready(target) => if target.body is Dir && (change.action.pending()
                || change.action == Action::Unchanged) {
                r matches Some((path, mode)) && path@ == rendered(target.path@, home@) && mode
                    == Mode::resolved(target.mode, true)
            } else {
                r is None
            },
            Resolution::Blocked(_) => r is None,
        },
{
    let target = match resolution {
        Resolution::Ready(target) => target,
        Resolution::Blocked(_) => {
            return None;
        },
    };
    let dir = match &target.body {
        Body::Dir => true,
        _ => false,
    };
    if dir && (change.action.is_pending() || change.action == Action::Unchanged) {
        Some((render(target.path.text.as_str(), home), Mode::resolve(target.mode, true)))
    } else {
        None
    }
}

/// Rows, each in its place and none missing.
fn in_place(rows: Vec<Option<Change>>) -> (r: Vec<Change>)
    requires
        forall|i: int| 0 <= i < rows@.len() ==> (#[trigger] rows@[i]) is Some,
    ensures
        r@.len() == rows@.len(),
        forall|i: int| 0 <= i < rows@.len() ==> #[trigger] r@[i] == rows@[i]->0,
{
    let ghost all = rows@;
    let mut rows = rows;
    let mut back: Vec<Change> = Vec::new();
    while rows.len() > 0
        invariant
            rows@ == all.subrange(0, rows@.len() as int),
            rows@.len() + back@.len() == all.len(),
            forall|i: int| 0 <= i < all.len() ==> (#[trigger] all[i]) is Some,
            forall|k: int| 0 <= k < back@.len() ==> #[trigger] back@[k] == all[all.len() - 1 - k]->0,
        decreases rows@.len(),
    {
        let ghost n = rows@.len();
        assert(rows@[n - 1] == all[n - 1]);
        match rows.pop() {
            Some(Some(change)) => {
                back.push(change);
            },
            _ => {
                assert(false);
            },
        }
        assert(rows@ =~= all.subrange(0, rows@.len() as int));
    }
    let out = backwards(back);
    assert forall|i: int| 0 <= i < all.len() implies #[trigger] out@[i] == all[i]->0 by {
        assert(out@[i] == back@[all.len() - 1 - i]);
    }
    out
}

/// Whether everything was decided, in the order its writes are made.
pub open spec fn all_decided(
    result: Decided,
    resolutions: Seq<Resolution>,
    facts: Seq<Result<Facts, String>>,
    ledger: Ledger,
    home: Seq<char>,
) -> bool {
    exists|turn: Seq<int>, dirs: int, all: Seq<(Change, Option<Op>)>| #[trigger]
        decided_in(result, resolutions, facts, ledger, home, turn, dirs, all)
}

proof fn lemma_all_decided(
    result: Decided,
    resolutions: Seq<Resolution>,
    facts: Seq<Result<Facts, String>>,
    ledger: Ledger,
    home: Seq<char>,
    turn: Seq<int>,
    dirs: int,
    all: Seq<(Change, Option<Op>)>,
)
    requires
        decided_in(result, resolutions, facts, ledger, home, turn, dirs, all),
    ensures
        all_decided(result, resolutions, facts, ledger, home),
{
}

/// Decide every target of a configuration.
///
/// Directory targets are decided first, shallowest first, each against the
/// directories above it already decided, and the rest after them in
/// configuration order. A directory apply will leave at its declared mode is
/// declared, so a later decision reads the mode `apply` will have left rather
/// than the one on disk now. That is what lets a file declared before its
/// directory be decided, and written, exactly as one declared after it.
///
/// # Errors
///
/// As [`decide`].
pub fn decide_all(
    resolutions: &Vec<Resolution>,
    facts: &Vec<Result<Facts, String>>,
    ledger: &Ledger,
    home: &str,
) -> (r: Result<Decided, Error>)
    requires
        ledger.wf(),
        facts@.len() == resolutions@.len(),
    ensures
        r is Ok <==> forall|i: int|
            0 <= i < resolutions@.len() ==> !stops(#[trigger] resolutions@[i], facts@[i], home@),
        match r {
            Ok(result) => all_decided(result, resolutions@, facts@, *ledger, home@),
            Err(error) => exists|turn: Seq<int>, dirs: int, k: int| #[trigger]
                stopped_in(error, resolutions@, facts@, *ledger, home@, turn, dirs, k),
        },
{
    let (turn, dirs) = turns(resolutions, home);
    let ghost order = indices(turn@);
    let ghost mut all: Seq<(Change, Option<Op>)> = Seq::empty();
    let mut rows: Vec<Option<Change>> = Vec::new();
    let mut i: usize = 0;
    while i < resolutions.len()
        invariant
            i <= resolutions.len(),
            rows@.len() == i,
        decreases resolutions.len() - i,
    {
        rows.push(None);
        i = i + 1;
    }
    let mut declared = Declared::new();
    let mut ops: Vec<Op> = Vec::new();
    let mut k: usize = 0;
    while k < turn.len()
        invariant
            k <= turn.len(),
            ledger.wf(),
            facts@.len() == resolutions@.len(),
            rows@.len() == resolutions@.len(),
            order == indices(turn@),
            in_turn(resolutions@, home@, order, dirs as int),
            all.len() == k,
            declared@ == declared_at(resolutions@, facts@, *ledger, home@, order, k as int),
            ops@ == made(all),
            forall|j: int|
                0 <= j < k ==> decided(
                    Ok(#[trigger] all[j]),
                    resolutions@[order[j]],
                    facts@[order[j]],
                    *ledger,
                    home@,
                    declared_at(resolutions@, facts@, *ledger, home@, order, j),
                ),
            forall|j: int| 0 <= j < k ==> rows@[order[j]] == Some((#[trigger] all[j]).0),
            forall|j: int|
                0 <= j < k ==> !stops(resolutions@[#[trigger] order[j]], facts@[order[j]], home@),
        decreases turn.len() - k,
    {
        let at = turn[k];
        assert(order[k as int] == at);
        let ghost before = declared@;
        let ctx = Ctx { ledger, home, declared: &declared };
        let (change, op) = match decide(&resolutions[at], &facts[at], &ctx) {
            Err(error) => {
                assert(stopped_in(
                    error,
                    resolutions@,
                    facts@,
                    *ledger,
                    home@,
                    order,
                    dirs as int,
                    k as int,
                ));
                return Err(error);
            },
            Ok(found) => found,
        };
        assert(!stops(resolutions@[at as int], facts@[at as int], home@));
        if let Some((path, mode)) = declared_dir(&resolutions[at], &change, home) {
            declared.insert(path, mode);
        }
        let ghost old_all = all;
        let ghost old_rows = rows@;
        proof {
            all = all.push((change, op));
            assert(all.drop_last() =~= old_all);
            assert(declared@ == declared_at(
                resolutions@,
                facts@,
                *ledger,
                home@,
                order,
                k + 1,
            ));
        }
        if let Some(op) = op {
            ops.push(op);
        }
        rows.set(at, Some(change));
        proof {
            assert(ops@ == made(all));
            assert forall|j: int| 0 <= j < k + 1 implies rows@[order[j]] == Some(
                (#[trigger] all[j]).0,
            ) by {
                if j < k {
                    lemma_turn_distinct(resolutions@, home@, order, dirs as int, j, k as int);
                    assert(all[j] == old_all[j]);
                }
            }
            assert forall|j: int| 0 <= j < k + 1 implies decided(
                Ok(#[trigger] all[j]),
                resolutions@[order[j]],
                facts@[order[j]],
                *ledger,
                home@,
                declared_at(resolutions@, facts@, *ledger, home@, order, j),
            ) by {
                if j < k {
                    assert(all[j] == old_all[j]);
                }
            }
        }
        k = k + 1;
    }
    proof {
        assert forall|m: int| 0 <= m < rows@.len() implies (#[trigger] rows@[m]) is Some by {
            assert(order.contains(m));
            let j = choose|j: int| 0 <= j < order.len() && order[j] == m;
            assert(rows@[order[j]] == Some(all[j].0));
        }
        assert forall|m: int| 0 <= m < resolutions@.len() implies !stops(
            #[trigger] resolutions@[m],
            facts@[m],
            home@,
        ) by {
            assert(order.contains(m));
            let j = choose|j: int| 0 <= j < order.len() && order[j] == m;
            assert(!stops(resolutions@[order[j]], facts@[order[j]], home@));
        }
    }
    let ghost filled = rows@;
    let changes = in_place(rows);
    let result = Decided { changes, ops, declared };
    proof {
        assert forall|j: int| 0 <= j < all.len() implies result.changes@[order[j]]
            == (#[trigger] all[j]).0 by {
            assert(filled[order[j]] == Some(all[j].0));
        }
        lemma_all_decided(
            result,
            resolutions@,
            facts@,
            *ledger,
            home@,
            order,
            dirs as int,
            all,
        );
    }
    Ok(result)
}

/// The decision a write comes from.
pub proof fn lemma_made(
    result: Decided,
    resolutions: Seq<Resolution>,
    facts: Seq<Result<Facts, String>>,
    ledger: Ledger,
    home: Seq<char>,
    turn: Seq<int>,
    dirs: int,
    all: Seq<(Change, Option<Op>)>,
    n: int,
    j: int,
) -> (k: int)
    requires
        decided_in(result, resolutions, facts, ledger, home, turn, dirs, all),
        0 <= n <= all.len(),
        0 <= j < made(all.subrange(0, n)).len(),
    ensures
        0 <= k < n,
        all[k].1 == Some(made(all.subrange(0, n))[j]),
        made(all.subrange(0, k)).len() == j,
    decreases n,
{
    let some = all.subrange(0, n);
    if n == 0 {
        assert(some =~= Seq::empty());
        0
    } else {
        assert(some.drop_last() =~= all.subrange(0, n - 1));
        assert(some.last() == all[n - 1]);
        if j < made(all.subrange(0, n - 1)).len() {
            lemma_made(result, resolutions, facts, ledger, home, turn, dirs, all, n - 1, j)
        } else {
            n - 1
        }
    }
}

/// More decisions make no fewer writes.
pub proof fn lemma_made_grows(all: Seq<(Change, Option<Op>)>, m: int, n: int)
    requires
        0 <= m <= n <= all.len(),
    ensures
        made(all.subrange(0, m)).len() <= made(all.subrange(0, n)).len(),
    decreases n,
{
    if m < n {
        lemma_made_grows(all, m, n - 1);
        assert(all.subrange(0, n).drop_last() =~= all.subrange(0, n - 1));
    }
}

/// Every directory is written before any file, and a directory before those
/// beneath it: the writes of a run are its directories, shallowest first, and
/// the files after them.
pub proof fn directories_are_written_first(
    result: Decided,
    resolutions: Seq<Resolution>,
    facts: Seq<Result<Facts, String>>,
    ledger: Ledger,
    home: Seq<char>,
    i: int,
    j: int,
)
    requires
        all_decided(result, resolutions, facts, ledger, home),
        0 <= i < j < result.ops@.len(),
    ensures
        result.ops@[j].made is Dir ==> result.ops@[i].made is Dir && components(
            result.ops@[i].dest@,
        ).len() <= components(result.ops@[j].dest@).len(),
{
    let (turn, dirs, all) = choose|turn: Seq<int>, dirs: int, all: Seq<(Change, Option<Op>)>|
        #[trigger] decided_in(result, resolutions, facts, ledger, home, turn, dirs, all);
    let n = all.len() as int;
    assert(all.subrange(0, n) =~= all);
    let a = lemma_made(result, resolutions, facts, ledger, home, turn, dirs, all, n, i);
    let b = lemma_made(result, resolutions, facts, ledger, home, turn, dirs, all, n, j);
    if b <= a {
        lemma_made_grows(all, b, a);
    }
    assert(a < b);
    assert(decided(
        Ok(all[a]),
        resolutions[turn[a]],
        facts[turn[a]],
        ledger,
        home,
        declared_at(resolutions, facts, ledger, home, turn, a),
    ));
    assert(decided(
        Ok(all[b]),
        resolutions[turn[b]],
        facts[turn[b]],
        ledger,
        home,
        declared_at(resolutions, facts, ledger, home, turn, b),
    ));
    if b < dirs {
        assert(goes_first(resolutions, home, turn[a], turn[b]));
    }
}

/// The name a target's row carries.
pub open spec fn named(resolution: Resolution) -> Seq<char> {
    match resolution {
        Resolution::Ready(target) => target.path@,
        Resolution::Blocked(entry) => entry.key@,
    }
}

/// Every target has its row, in configuration order, whatever order they were
/// decided in.
pub proof fn every_target_has_its_row(
    result: Decided,
    resolutions: Seq<Resolution>,
    facts: Seq<Result<Facts, String>>,
    ledger: Ledger,
    home: Seq<char>,
    i: int,
)
    requires
        all_decided(result, resolutions, facts, ledger, home),
        0 <= i < resolutions.len(),
    ensures
        result.changes@.len() == resolutions.len(),
        result.changes@[i].target@ == named(resolutions[i]),
{
    let (turn, dirs, all) = choose|turn: Seq<int>, dirs: int, all: Seq<(Change, Option<Op>)>|
        #[trigger] decided_in(result, resolutions, facts, ledger, home, turn, dirs, all);
    assert(turn.contains(i));
    let k = choose|k: int| 0 <= k < turn.len() && turn[k] == i;
    assert(result.changes@[turn[k]] == all[k].0);
    assert(decided(
        Ok(all[k]),
        resolutions[turn[k]],
        facts[turn[k]],
        ledger,
        home,
        declared_at(resolutions, facts, ledger, home, turn, k),
    ));
}

/// A destination is looked at only for a target that wants bytes, or a directory
/// that is not the root.
pub proof fn only_what_is_written_is_looked_at(resolution: Resolution, home: Seq<char>)
    ensures
        resolution is Blocked ==> !reads_facts(resolution, home),
        resolution matches Resolution::Ready(target) ==> {
            &&& want(target) is Bytes ==> reads_facts(resolution, home)
            &&& want(target) is Dir ==> (reads_facts(resolution, home) <==> parent(
                rendered(target.path@, home),
            ) is Some)
            &&& want(target) !is Bytes && want(target) !is Dir ==> !reads_facts(resolution, home)
        },
{
}

/// The shallower of two directories is decided first, of as deep ones the one
/// spelled first, and of two that are spelled the same the one declared first.
pub proof fn a_shallower_directory_is_decided_first(
    resolutions: Seq<Resolution>,
    home: Seq<char>,
    a: int,
    b: int,
)
    requires
        resolutions[a] is Ready,
        resolutions[b] is Ready,
    ensures
        ({
            let first = resolutions[a]->Ready_0.path@;
            let second = resolutions[b]->Ready_0.path@;
            let above = components(rendered(first, home)).len();
            let below = components(rendered(second, home)).len();
            &&& above < below ==> goes_first(resolutions, home, a, b)
            &&& above > below ==> !goes_first(resolutions, home, a, b)
            &&& above == below && first != second ==> (goes_first(resolutions, home, a, b)
                <==> text_before(first, second))
            &&& first == second ==> (goes_first(resolutions, home, a, b) <==> a < b)
        }),
{
    let first = resolutions[a]->Ready_0.path@;
    lemma_text_order(first, first, first);
}

/// The writes of some decisions are the writes of each, one after another.
pub proof fn every_decided_write_is_made_in_turn(
    some: Seq<(Change, Option<Op>)>,
    more: Seq<(Change, Option<Op>)>,
    change: Change,
    op: Op,
)
    ensures
        made(Seq::empty()).len() == 0,
        made(some + more) == made(some) + made(more),
        made(some.push((change, Some(op)))) == made(some).push(op),
        made(some.push((change, None))) == made(some),
    decreases more.len(),
{
    assert(some.push((change, Some(op))).drop_last() =~= some);
    assert(some.push((change, None)).drop_last() =~= some);
    if more.len() == 0 {
        assert(some + more =~= some);
        assert(made(some + more) =~= made(some) + made(more));
    } else {
        every_decided_write_is_made_in_turn(some, more.drop_last(), change, op);
        assert((some + more).drop_last() =~= some + more.drop_last());
        assert(made(some + more) =~= made(some) + made(more));
    }
}

/// A directory counts as declared for the decisions after it only if it is
/// declared, could be looked at, and is left at its declared mode.
pub proof fn only_a_directory_that_is_left_so_is_declared(
    resolution: Resolution,
    facts: Result<Facts, String>,
    ledger: Ledger,
    home: Seq<char>,
    before: Seq<(Seq<char>, Mode)>,
)
    ensures
        declares(resolution, facts, ledger, home, before) matches Some((dir, mode)) ==> {
            &&& resolution is Ready
            &&& want(resolution->Ready_0) is Dir
            &&& facts is Ok
            &&& dir == rendered(resolution->Ready_0.path@, home)
            &&& mode == Mode::resolved(resolution->Ready_0.mode, true)
        },
        resolution matches Resolution::Ready(target) ==> want(target) is Dir && parent(
            rendered(target.path@, home),
        ) is Some ==> (facts matches Ok(found) ==> ({
            let action = dir_verdict(target, found, ledger, home, before).0;
            declares(resolution, facts, ledger, home, before) is Some <==> action
                == Action::Unchanged || action == Action::Create || action == Action::Modify
        })),
{
}

/// A target cannot be decided if and only if its body could not be read, or it
/// is to be looked at and could not be.
pub proof fn only_what_cannot_be_read_stops_a_run(
    resolution: Resolution,
    facts: Result<Facts, String>,
    home: Seq<char>,
)
    ensures
        resolution is Blocked ==> !stops(resolution, facts, home),
        resolution matches Resolution::Ready(target) ==> {
            &&& want(target) is Unread ==> stops(resolution, facts, home)
            &&& want(target) is Bytes ==> (stops(resolution, facts, home) <==> facts is Err)
            &&& want(target) is Dir && parent(rendered(target.path@, home)) is Some ==> (stops(
                resolution,
                facts,
                home,
            ) <==> facts is Err)
            &&& want(target) is Dir && parent(rendered(target.path@, home)) is None ==> !stops(
                resolution,
                facts,
                home,
            )
        },
{
}

} // verus!
