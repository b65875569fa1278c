//! What happens to a target, and what a run exits with.

use crate::text::{decimal, decimal_of};
use vstd::prelude::*;

verus! {

/// What happens to a target.
#[derive(Clone, Copy, Debug, PartialEq, Eq, Structural)]
pub enum Action {
    /// It is not there, and is made.
    Create,
    /// It is there, and is changed.
    Modify,
    /// It is in the way, and is left.
    Conflict,
    /// It cannot be decided yet.
    Blocked,
    /// bx wrote it and it is no longer declared; it is left.
    Undeclared,
    /// It is as it should be.
    Unchanged,
}

impl Action {
    /// Whether `apply` writes for it.
    pub open spec fn pending(self) -> bool {
        self == Action::Create || self == Action::Modify
    }

    /// Whether a human has to look at it.
    pub open spec fn attention(self) -> bool {
        self == Action::Conflict || self == Action::Blocked
    }

    /// Whether there is nothing to do or to decide for it.
    pub open spec fn settled(self) -> bool {
        self == Action::Unchanged || self == Action::Undeclared
    }

    /// The character a row starts with.
    pub open spec fn sign(self) -> char {
        match self {
            Action::Create => '+',
            Action::Modify => '~',
            Action::Conflict => '!',
            Action::Blocked => '?',
            Action::Undeclared => '*',
            Action::Unchanged => '=',
        }
    }

    /// The character a row starts with.
    pub fn symbol(self) -> (r: char)
        ensures
            r == self.sign(),
    {
        match self {
            Action::Create => '+',
            Action::Modify => '~',
            Action::Conflict => '!',
            Action::Blocked => '?',
            Action::Undeclared => '*',
            Action::Unchanged => '=',
        }
    }

    /// Whether `apply` writes for it.
    pub fn is_pending(self) -> (r: bool)
        ensures
            r == self.pending(),
    {
        match self {
            Action::Create | Action::Modify => true,
            _ => false,
        }
    }

    /// Whether a human has to look at it.
    pub fn needs_attention(self) -> (r: bool)
        ensures
            r == self.attention(),
    {
        match self {
            Action::Conflict | Action::Blocked => true,
            _ => false,
        }
    }
}

/// How often an action occurs.
pub open spec fn tally(actions: Seq<Action>, action: Action) -> nat
    decreases actions.len(),
{
    if actions.len() == 0 {
        0
    } else {
        tally(actions.drop_last(), action) + if actions.last() == action {
            1nat
        } else {
            0
        }
    }
}

/// How often an action occurs.
fn count(actions: &Vec<Action>, action: Action) -> (r: usize)
    ensures
        r == tally(actions@, action),
{
    let mut n: usize = 0;
    let mut i: usize = 0;
    while i < actions.len()
        invariant
            i <= actions.len(),
            n == tally(actions@.subrange(0, i as int), action),
            n <= i,
        decreases actions.len() - i,
    {
        assert(actions@.subrange(0, i + 1).drop_last() =~= actions@.subrange(0, i as int));
        if actions[i] == action {
            n = n + 1;
        }
        i = i + 1;
    }
    assert(actions@.subrange(0, actions@.len() as int) =~= actions@);
    n
}

/// The line a rendering ends with.
pub open spec fn summary_text(actions: Seq<Action>) -> Seq<char> {
    "Plan: "@ + decimal(tally(actions, Action::Create)) + " to create, "@ + decimal(
        tally(actions, Action::Modify),
    ) + " to modify, "@ + decimal(tally(actions, Action::Conflict)) + " conflict, "@ + decimal(
        tally(actions, Action::Blocked),
    ) + " blocked, "@ + decimal(tally(actions, Action::Unchanged)) + " unchanged"@ + (if tally(
        actions,
        Action::Undeclared,
    ) > 0 {
        ", "@ + decimal(tally(actions, Action::Undeclared)) + " undeclared."@
    } else {
        "."@
    })
}

/// The line a rendering ends with: how many rows there are of each action, and
/// of those no longer declared where there are any.
pub fn summary(actions: &Vec<Action>) -> (r: String)
    ensures
        r@ == summary_text(actions@),
{
    let counted = "Plan: ".to_owned().concat(decimal_of(count(actions, Action::Create)).as_str()).concat(
        " to create, ",
    ).concat(decimal_of(count(actions, Action::Modify)).as_str()).concat(" to modify, ").concat(
        decimal_of(count(actions, Action::Conflict)).as_str(),
    ).concat(" conflict, ").concat(decimal_of(count(actions, Action::Blocked)).as_str()).concat(
        " blocked, ",
    ).concat(decimal_of(count(actions, Action::Unchanged)).as_str()).concat(" unchanged");
    let undeclared = count(actions, Action::Undeclared);
    if undeclared > 0 {
        counted.concat(", ").concat(decimal_of(undeclared).as_str()).concat(" undeclared.")
    } else {
        counted.concat(".")
    }
}

/// What a run exits with.
#[derive(Clone, Copy, Debug, PartialEq, Eq, Structural)]
pub enum Exit {
    /// Every target is as it should be.
    Converged,
    /// There is something left to do or to look at.
    Pending,
}

impl Exit {
    /// What some rows exit with: converged when there is nothing to do or to
    /// decide for any of them.
    pub fn from_actions(actions: &Vec<Action>) -> (r: Exit)
        ensures
            (r == Exit::Converged) == (forall|i: int|
                0 <= i < actions@.len() ==> (#[trigger] actions@[i]).settled()),
    {
        let mut i: usize = 0;
        while i < actions.len()
            invariant
                i <= actions.len(),
                forall|j: int| 0 <= j < i ==> (#[trigger] actions@[j]).settled(),
            decreases actions.len() - i,
        {
            if actions[i] != Action::Unchanged && actions[i] != Action::Undeclared {
                assert(!actions@[i as int].settled());
                return Exit::Pending;
            }
            i = i + 1;
        }
        Exit::Converged
    }
}

/// Every row is counted once, under its own action: one more row of an action
/// adds one to that count and to no other, the counts of two lists are those of
/// both, and all counts together are as many as the rows.
pub proof fn every_row_is_counted_once(actions: Seq<Action>, more: Seq<Action>, action: Action)
    ensures
        tally(actions + more, action) == tally(actions, action) + tally(more, action),
        tally(seq![action], action) == 1,
        forall|other: Action| other != action ==> tally(seq![action], other) == 0,
        tally(actions, Action::Create) + tally(actions, Action::Modify) + tally(
            actions,
            Action::Conflict,
        ) + tally(actions, Action::Blocked) + tally(actions, Action::Undeclared) + tally(
            actions,
            Action::Unchanged,
        ) == actions.len(),
    decreases actions.len() + more.len(),
{
    reveal_with_fuel(tally, 2);
    assert(seq![action].drop_last() =~= Seq::<Action>::empty());
    if more.len() > 0 {
        assert((actions + more).drop_last() =~= actions + more.drop_last());
        every_row_is_counted_once(actions, more.drop_last(), action);
    } else {
        assert(actions + more =~= actions);
        if actions.len() > 0 {
            every_row_is_counted_once(actions.drop_last(), Seq::empty(), action);
            assert(actions.drop_last() + Seq::<Action>::empty() =~= actions.drop_last());
        }
    }
}

/// The last line names the count of each action, those no longer declared only
/// where there are any.
pub proof fn the_summary_names_every_count(actions: Seq<Action>)
    ensures
        ({
            let n = |action: Action| decimal(tally(actions, action));
            let head = "Plan: "@ + n(Action::Create) + " to create, "@ + n(Action::Modify)
                + " to modify, "@ + n(Action::Conflict) + " conflict, "@ + n(Action::Blocked)
                + " blocked, "@ + n(Action::Unchanged) + " unchanged"@;
            &&& tally(actions, Action::Undeclared) == 0 ==> summary_text(actions) == head + "."@
            &&& tally(actions, Action::Undeclared) > 0 ==> summary_text(actions) == head + ", "@
                + n(Action::Undeclared) + " undeclared."@
        }),
{
    let tail = ", "@ + decimal(tally(actions, Action::Undeclared)) + " undeclared."@;
    let head = "Plan: "@ + decimal(tally(actions, Action::Create)) + " to create, "@ + decimal(
        tally(actions, Action::Modify),
    ) + " to modify, "@ + decimal(tally(actions, Action::Conflict)) + " conflict, "@ + decimal(
        tally(actions, Action::Blocked),
    ) + " blocked, "@ + decimal(tally(actions, Action::Unchanged)) + " unchanged"@;
    assert(head + tail =~= head + ", "@ + decimal(tally(actions, Action::Undeclared))
        + " undeclared."@);
}

/// No two actions start a row alike, and each is written for, needs a look, or
/// is settled: exactly one of the three.
pub proof fn an_action_is_told_by_its_sign(a: Action, b: Action)
    ensures
        a.sign() == b.sign() ==> a == b,
        Action::Create.sign() == '+',
        Action::Modify.sign() == '~',
        Action::Conflict.sign() == '!',
        Action::Blocked.sign() == '?',
        Action::Undeclared.sign() == '*',
        Action::Unchanged.sign() == '=',
        a.pending() <==> a == Action::Create || a == Action::Modify,
        a.attention() <==> a == Action::Conflict || a == Action::Blocked,
        a.settled() <==> a == Action::Unchanged || a == Action::Undeclared,
{
}

} // verus!
