//! The notes a row carries.

use crate::text::{opt_text, strings};
use vstd::prelude::*;

verus! {

/// Some texts, one after another, with `between` between them.
pub open spec fn listed(texts: Seq<Seq<char>>, between: Seq<char>) -> Seq<char>
    decreases texts.len(),
{
    if texts.len() == 0 {
        Seq::empty()
    } else if texts.len() == 1 {
        texts[0]
    } else {
        listed(texts.drop_last(), between) + between + texts.last()
    }
}

/// The parts that are there.
pub open spec fn present(parts: Seq<Option<Seq<char>>>) -> Seq<Seq<char>>
    decreases parts.len(),
{
    if parts.len() == 0 {
        Seq::empty()
    } else {
        match parts.last() {
            Some(text) => present(parts.drop_last()).push(text),
            None => present(parts.drop_last()),
        }
    }
}

/// The parts that are there, with `; ` between them.
pub open spec fn note_of(parts: Seq<Option<Seq<char>>>) -> Option<Seq<char>> {
    if present(parts).len() == 0 {
        None
    } else {
        Some(listed(present(parts), "; "@))
    }
}

/// Some texts that may not be there.
pub open spec fn option_texts(parts: Seq<Option<String>>) -> Seq<Option<Seq<char>>> {
    Seq::new(parts.len(), |i: int| opt_text(parts[i]))
}

/// Some texts, one after another, with `between` between them.
pub fn list(texts: &Vec<String>, between: &str) -> (r: String)
    ensures
        r@ == listed(strings(texts@), between@),
{
    let ghost all = strings(texts@);
    let mut out = String::new();
    let mut i: usize = 0;
    assert(out@ =~= listed(all.subrange(0, 0), between@));
    while i < texts.len()
        invariant
            i <= texts.len(),
            all == strings(texts@),
            out@ == listed(all.subrange(0, i as int), between@),
        decreases texts.len() - i,
    {
        let ghost more = all.subrange(0, i + 1);
        assert(more.drop_last() =~= all.subrange(0, i as int));
        if i > 0 {
            out.append(between);
        }
        out.append(texts[i].as_str());
        assert(out@ =~= listed(more, between@));
        i = i + 1;
    }
    assert(all.subrange(0, all.len() as int) =~= all);
    out
}

/// The present parts, joined with `; `, or `None` when there are none.
pub fn join(parts: Vec<Option<String>>) -> (r: Option<String>)
    ensures
        opt_text(r) == note_of(option_texts(parts@)),
{
    let ghost all = option_texts(parts@);
    let mut there: Vec<String> = Vec::new();
    let mut i: usize = 0;
    assert(strings(there@) =~= present(all.subrange(0, 0)));
    while i < parts.len()
        invariant
            i <= parts.len(),
            all == option_texts(parts@),
            strings(there@) == present(all.subrange(0, i as int)),
        decreases parts.len() - i,
    {
        let ghost more = all.subrange(0, i + 1);
        let ghost before = there@;
        assert(more.drop_last() =~= all.subrange(0, i as int));
        if let Some(text) = &parts[i] {
            there.push(text.clone());
            assert(strings(there@) =~= strings(before).push(text@));
        }
        i = i + 1;
    }
    assert(all.subrange(0, all.len() as int) =~= all);
    assert(strings(there@).len() == there@.len());
    if there.len() == 0 {
        return None;
    }
    Some(list(&there, "; "))
}

/// Two parts, joined.
pub fn both(first: Option<String>, second: Option<String>) -> (r: Option<String>)
    ensures
        opt_text(r) == note_of(seq![opt_text(first), opt_text(second)]),
{
    let ghost parts = seq![opt_text(first), opt_text(second)];
    let mut all: Vec<Option<String>> = Vec::new();
    all.push(first);
    all.push(second);
    assert(option_texts(all@) =~= parts);
    join(all)
}

/// Two parts are said one after the other, the first first; one that is not
/// there leaves the other as it is.
pub proof fn two_parts_are_joined(first: Option<Seq<char>>, second: Option<Seq<char>>)
    ensures
        first is None && second is None ==> note_of(seq![first, second]) is None,
        first is Some && second is None ==> note_of(seq![first, second]) == first,
        first is None && second is Some ==> note_of(seq![first, second]) == second,
        first is Some && second is Some ==> note_of(seq![first, second]) == Some(
            first->0 + "; "@ + second->0,
        ),
{
    let parts = seq![first, second];
    reveal_with_fuel(present, 3);
    reveal_with_fuel(listed, 3);
    assert(parts.drop_last() =~= seq![first]);
    assert(seq![first].drop_last() =~= Seq::empty());
    if first is Some && second is Some {
        assert(present(parts) =~= seq![first->0, second->0]);
        assert(seq![first->0, second->0].drop_last() =~= seq![first->0]);
    }
}

/// A list of texts is its first ones, the separator, and the rest of them,
/// wherever it is cut; a list of one is that one.
pub proof fn a_list_says_every_text_in_turn(
    some: Seq<Seq<char>>,
    rest: Seq<Seq<char>>,
    between: Seq<char>,
)
    ensures
        some.len() == 1 ==> listed(some, between) == some[0],
        some.len() > 0 && rest.len() > 0 ==> listed(some + rest, between) == listed(some, between)
            + between + listed(rest, between),
    decreases rest.len(),
{
    let all = some + rest;
    if some.len() > 0 && rest.len() > 0 {
        assert(all.drop_last() =~= some + rest.drop_last());
        if rest.len() == 1 {
            assert(all.drop_last() =~= some);
        } else {
            a_list_says_every_text_in_turn(some, rest.drop_last(), between);
        }
        assert(listed(all, between) =~= listed(some, between) + between + listed(rest, between));
    }
}

/// Every part that is there is said, in the order the parts are given in, and
/// no other: what some parts say, and more parts after them, is what both say.
pub proof fn every_part_that_is_there_is_said(
    some: Seq<Option<Seq<char>>>,
    part: Option<Seq<char>>,
)
    ensures
        part is Some ==> note_of(some.push(part)) == Some(
            match note_of(some) {
                Some(note) => note + "; "@ + part->0,
                None => part->0,
            },
        ),
        part is None ==> note_of(some.push(part)) == note_of(some),
        note_of(Seq::empty()) is None,
{
    let all = some.push(part);
    assert(all.drop_last() =~= some);
    assert(present(Seq::<Option<Seq<char>>>::empty()).len() == 0);
    if part is Some {
        let before = present(some);
        assert(present(all) == before.push(part->0));
        assert(before.push(part->0) =~= before + seq![part->0]);
        a_list_says_every_text_in_turn(before, seq![part->0], "; "@);
        a_list_says_every_text_in_turn(seq![part->0], Seq::empty(), "; "@);
        if before.len() == 0 {
            assert(before.push(part->0) =~= seq![part->0]);
        }
    }
}

} // verus!
