//! The directories bx created for its targets, once a target is gone.
//!
//! A directory bx made for a target it later releases is removed when it is
//! empty and nobody's target, and where it still stands it is given to an entry
//! beneath it, so the `rm` that removes that entry removes the directory too.

use crate::order::{is_taken_before, lemma_taken_order, path_before, taken_before};
use crate::paths::{
    beneath, components, path_is, path_within, portable, rendered, same_path, to_portable,
};
use crate::state::{
    lemma_place, merge, merged, merged_lists_hold_both, place_of, texts, with_path, Ledger,
    LedgerEntry, Portable,
};
use vstd::prelude::*;

verus! {

/// Whether `out` is `dirs` in the order they are taken, each path once.
#[verifier::opaque]
pub open spec fn taken(dirs: Seq<String>, deepest: bool, out: Seq<String>) -> bool {
    &&& forall|i: int, j: int|
        0 <= i < j < out.len() ==> taken_before(
            (#[trigger] out[i])@,
            (#[trigger] out[j])@,
            deepest,
        )
    &&& forall|i: int|
        0 <= i < out.len() ==> exists|k: int|
            0 <= k < dirs.len() && (#[trigger] dirs[k])@ == (#[trigger] out[i])@
    &&& forall|k: int|
        0 <= k < dirs.len() ==> exists|i: int|
            0 <= i < out.len() && same_path((#[trigger] out[i])@, (#[trigger] dirs[k])@)
}

/// Puts `dir` in its place among directories in order, unless its path is
/// there.
fn take(out: &mut Vec<String>, dir: String, deepest: bool)
    requires
        forall|i: int, j: int|
            0 <= i < j < old(out)@.len() ==> taken_before(
                (#[trigger] old(out)@[i])@,
                (#[trigger] old(out)@[j])@,
                deepest,
            ),
    ensures
        forall|i: int, j: int|
            0 <= i < j < final(out)@.len() ==> taken_before(
                (#[trigger] final(out)@[i])@,
                (#[trigger] final(out)@[j])@,
                deepest,
            ),
        forall|i: int|
            0 <= i < final(out)@.len() ==> (#[trigger] final(out)@[i])@ == dir@ || exists|k: int|
                0 <= k < old(out)@.len() && (#[trigger] old(out)@[k])@ == final(out)@[i]@,
        forall|k: int|
            0 <= k < old(out)@.len() ==> exists|i: int|
                0 <= i < final(out)@.len() && (#[trigger] final(out)@[i])@ == (
                #[trigger] old(out)@[k])@,
        exists|i: int| 0 <= i < final(out)@.len() && same_path((#[trigger] final(out)@[i])@, dir@),
{
    let mut k: usize = 0;
    while k < out.len() && is_taken_before(out[k].as_str(), dir.as_str(), deepest)
        invariant
            k <= out.len(),
            out@ == old(out)@,
            forall|j: int| 0 <= j < k ==> taken_before((#[trigger] out@[j])@, dir@, deepest),
        decreases out.len() - k,
    {
        k = k + 1;
    }
    let ghost before = out@;
    if k < out.len() && path_is(out[k].as_str(), dir.as_str()) {
        return ;
    }
    let ghost text = dir@;
    proof {
        assert forall|j: int| k <= j < before.len() implies taken_before(
            text,
            (#[trigger] before[j])@,
            deepest,
        ) by {
            lemma_taken_order(before[k as int]@, text, text, deepest);
            lemma_taken_order(text, before[k as int]@, text, deepest);
            if k < j {
                lemma_taken_order(text, before[k as int]@, before[j]@, deepest);
            }
        }
    }
    out.insert(k, dir);
    proof {
        assert(out@ == before.insert(k as int, dir));
        assert forall|i: int, j: int| 0 <= i < j < out@.len() implies taken_before(
            (#[trigger] out@[i])@,
            (#[trigger] out@[j])@,
            deepest,
        ) by {
            let a = if i < k { i } else { i - 1 };
            let b = if j < k { j } else { j - 1 };
            if i != k {
                assert(out@[i] == before[a]);
            }
            if j != k {
                assert(out@[j] == before[b]);
            }
        }
        assert forall|i: int| 0 <= i < out@.len() implies (#[trigger] out@[i])@ == dir@ || exists|
            m: int,
        |
            0 <= m < before.len() && (#[trigger] before[m])@ == out@[i]@ by {
            if i != k {
                let a = if i < k { i } else { i - 1 };
                assert(out@[i] == before[a]);
            }
        }
        assert forall|m: int| 0 <= m < before.len() implies exists|i: int|
            0 <= i < out@.len() && (#[trigger] out@[i])@ == (#[trigger] before[m])@ by {
            let i = if m < k { m } else { m + 1 };
            assert(out@[i] == before[m]);
        }
        assert(same_path(out@[k as int]@, dir@));
    }
}

/// `dirs` in the order they are taken, each path once: by path, or deepest
/// first.
pub fn in_order(dirs: &Vec<String>, deepest: bool) -> (r: Vec<String>)
    ensures
        taken(dirs@, deepest, r@),
{
    reveal(taken);
    let mut out: Vec<String> = Vec::new();
    let mut n: usize = 0;
    while n < dirs.len()
        invariant
            n <= dirs.len(),
            taken(dirs@.subrange(0, n as int), deepest, out@),
        decreases dirs.len() - n,
    {
        reveal(taken);
        let ghost before = out@;
        let ghost some = dirs@.subrange(0, n as int);
        let ghost more = dirs@.subrange(0, n + 1);
        take(&mut out, dirs[n].clone(), deepest);
        proof {
            assert forall|i: int| 0 <= i < out@.len() implies exists|k: int|
                0 <= k < more.len() && (#[trigger] more[k])@ == (#[trigger] out@[i])@ by {
                if out@[i]@ == dirs@[n as int]@ {
                    assert(more[n as int]@ == out@[i]@);
                } else {
                    let m = choose|m: int|
                        0 <= m < before.len() && (#[trigger] before[m])@ == out@[i]@;
                    let k = choose|k: int|
                        0 <= k < some.len() && (#[trigger] some[k])@ == before[m]@;
                    assert(more[k] == some[k]);
                }
            }
            assert forall|k: int| 0 <= k < more.len() implies exists|i: int|
                0 <= i < out@.len() && same_path((#[trigger] out@[i])@, (#[trigger] more[k])@) by {
                if k < n {
                    assert(more[k] == some[k]);
                    let m = choose|m: int|
                        0 <= m < before.len() && same_path((#[trigger] before[m])@, some[k]@);
                    let i = choose|i: int|
                        0 <= i < out@.len() && (#[trigger] out@[i])@ == before[m]@;
                    assert(same_path(out@[i]@, more[k]@));
                }
            }
        }
        n = n + 1;
    }
    assert(dirs@.subrange(0, dirs@.len() as int) =~= dirs@);
    out
}

/// Whether an entry of the ledger is this path.
pub open spec fn named(entries: Seq<LedgerEntry>, home: Seq<char>, dir: Seq<char>) -> bool {
    exists|i: int|
        0 <= i < entries.len() && same_path(rendered((#[trigger] entries[i]).path@, home), dir)
}

fn is_named(ledger: &Ledger, home: &str, dir: &str) -> (r: bool)
    ensures
        r == named(ledger.entries@, home@, dir@),
{
    let mut i: usize = 0;
    while i < ledger.entries.len()
        invariant
            i <= ledger.entries.len(),
            forall|j: int|
                0 <= j < i ==> !same_path(
                    rendered((#[trigger] ledger.entries@[j]).path@, home@),
                    dir@,
                ),
        decreases ledger.entries.len() - i,
    {
        if path_is(ledger.entries[i].path.render(home).as_str(), dir) {
            assert(same_path(rendered(ledger.entries@[i as int].path@, home@), dir@));
            return true;
        }
        i = i + 1;
    }
    false
}

/// Whether `out` is what of `dirs` is to be removed while empty: each path that
/// is no entry's, once, deepest first.
pub open spec fn prunable(
    entries: Seq<LedgerEntry>,
    home: Seq<char>,
    dirs: Seq<String>,
    out: Seq<String>,
) -> bool {
    &&& forall|i: int, j: int|
        0 <= i < j < out.len() ==> taken_before((#[trigger] out[i])@, (#[trigger] out[j])@, true)
    &&& forall|i: int|
        0 <= i < out.len() ==> !named(entries, home, (#[trigger] out[i])@) && exists|k: int|
            0 <= k < dirs.len() && (#[trigger] dirs[k])@ == out[i]@
    &&& forall|k: int|
        0 <= k < dirs.len() && !named(entries, home, (#[trigger] dirs[k])@) ==> exists|i: int|
            0 <= i < out.len() && same_path((#[trigger] out[i])@, dirs[k]@)
}

/// The directories of `dirs` to remove where they are empty, deepest first.
///
/// `dirs` are claims, possibly several targets', so a directory that is not
/// empty does not stop the walk: it is skipped and the rest are tried. A
/// directory an entry names is somebody's target, whoever claimed it, and is
/// never removed.
pub fn prune_claims(ledger: &Ledger, home: &str, dirs: &Vec<String>) -> (r: Vec<String>)
    ensures
        prunable(ledger.entries@, home@, dirs@, r@),
{
    reveal(taken);
    let all = in_order(dirs, true);
    let mut out: Vec<String> = Vec::new();
    let mut n: usize = 0;
    let ghost mut from: Seq<int> = Seq::empty();
    while n < all.len()
        invariant
            n <= all.len(),
            taken(dirs@, true, all@),
            from.len() == out@.len(),
            forall|i: int|
                0 <= i < out@.len() ==> 0 <= #[trigger] from[i] < n && out@[i] == all@[from[i]]
                    && !named(ledger.entries@, home@, out@[i]@),
            forall|i: int, j: int| 0 <= i < j < from.len() ==> (#[trigger] from[i]) < (
            #[trigger] from[j]),
            forall|k: int|
                0 <= k < n && !named(ledger.entries@, home@, (#[trigger] all@[k])@)
                    ==> from.contains(k),
        decreases all.len() - n,
    {
        let ghost was = from;
        if !is_named(ledger, home, all[n].as_str()) {
            out.push(all[n].clone());
            proof {
                from = from.push(n as int);
                assert(from[from.len() - 1] == n);
            }
        }
        proof {
            assert forall|k: int|
                0 <= k < n + 1 && !named(
                    ledger.entries@,
                    home@,
                    (#[trigger] all@[k])@,
                ) implies from.contains(k) by {
                if k < n {
                    let m = was.index_of(k);
                    assert(was.contains(k));
                    assert(from[m] == k);
                }
            }
        }
        n = n + 1;
    }
    proof {
        assert forall|i: int, j: int| 0 <= i < j < out@.len() implies taken_before(
            (#[trigger] out@[i])@,
            (#[trigger] out@[j])@,
            true,
        ) by {
            assert(from[i] < from[j]);
        }
        assert forall|i: int| 0 <= i < out@.len() implies !named(
            ledger.entries@,
            home@,
            (#[trigger] out@[i])@,
        ) && exists|k: int| 0 <= k < dirs@.len() && (#[trigger] dirs@[k])@ == out@[i]@ by {
            assert(0 <= from[i] < all@.len());
            let k = choose|k: int|
                0 <= k < dirs@.len() && (#[trigger] dirs@[k])@ == all@[from[i]]@;
            assert(dirs@[k]@ == out@[i]@);
        }
        assert forall|k: int|
            0 <= k < dirs@.len() && !named(
                ledger.entries@,
                home@,
                (#[trigger] dirs@[k])@,
            ) implies exists|i: int| 0 <= i < out@.len() && same_path((#[trigger] out@[i])@, dirs@[k]@) by {
            let m = choose|m: int|
                0 <= m < all@.len() && same_path((#[trigger] all@[m])@, dirs@[k]@);
            assert(!named(ledger.entries@, home@, all@[m]@)) by {
                if named(ledger.entries@, home@, all@[m]@) {
                    let e = choose|e: int|
                        0 <= e < ledger.entries@.len() && same_path(
                            rendered((#[trigger] ledger.entries@[e]).path@, home@),
                            all@[m]@,
                        );
                    assert(same_path(rendered(ledger.entries@[e].path@, home@), dirs@[k]@));
                }
            }
            assert(from.contains(m));
            let i = from.index_of(m);
            assert(from[i] == m);
            assert(same_path(out@[i]@, dirs@[k]@));
        }
    }
    out
}

/// Whether the entry at `i` is the first strictly beneath `dir`.
pub open spec fn is_heir(
    entries: Seq<LedgerEntry>,
    home: Seq<char>,
    dir: Seq<char>,
    i: int,
) -> bool {
    &&& 0 <= i < entries.len()
    &&& beneath(rendered(entries[i].path@, home), dir)
    &&& forall|j: int|
        0 <= j < i ==> !beneath(rendered((#[trigger] entries[j]).path@, home), dir)
}

/// Whether no entry is strictly beneath `dir`.
pub open spec fn heirless(entries: Seq<LedgerEntry>, home: Seq<char>, dir: Seq<char>) -> bool {
    forall|j: int|
        0 <= j < entries.len() ==> !beneath(rendered((#[trigger] entries[j]).path@, home), dir)
}

/// Whether one entry is another with a claim it may have lacked.
pub open spec fn inherits(before: LedgerEntry, claim: Seq<char>, after: LedgerEntry) -> bool {
    &&& after.path == before.path
    &&& after.written == before.written
    &&& after.mode == before.mode
    &&& after.mechanism == before.mechanism
    &&& after.prior == before.prior
    &&& texts(after.created_dirs@) == merged(texts(before.created_dirs@), seq![claim])
}

/// What giving one standing directory on makes of the ledger: its claim goes
/// to the first entry beneath it, and to nobody where there is none.
pub open spec fn handed_one(
    before: Seq<LedgerEntry>,
    home: Seq<char>,
    dir: Seq<char>,
    after: Seq<LedgerEntry>,
) -> bool {
    ||| heirless(before, home, dir) && after == before
    ||| exists|i: int|
        #[trigger] is_heir(before, home, dir, i) && after.len() == before.len() && inherits(
            before[i],
            portable(dir, home),
            after[i],
        ) && forall|j: int| 0 <= j < before.len() && j != i ==> #[trigger] after[j] == before[j]
}

/// What giving standing directories on, one after another, makes of the ledger.
pub open spec fn handed(
    before: Seq<LedgerEntry>,
    home: Seq<char>,
    dirs: Seq<String>,
    after: Seq<LedgerEntry>,
) -> bool
    decreases dirs.len(),
{
    if dirs.len() == 0 {
        after == before
    } else {
        exists|mid: Seq<LedgerEntry>|
            handed(before, home, dirs.drop_last(), mid) && #[trigger] handed_one(
                mid,
                home,
                dirs.last()@,
                after,
            )
    }
}

fn find_heir(ledger: &Ledger, home: &str, dir: &str) -> (r: Option<usize>)
    ensures
        match r {
            Some(i) => is_heir(ledger.entries@, home@, dir@, i as int),
            None => heirless(ledger.entries@, home@, dir@),
        },
{
    let mut i: usize = 0;
    while i < ledger.entries.len()
        invariant
            i <= ledger.entries.len(),
            forall|j: int|
                0 <= j < i ==> !beneath(
                    rendered((#[trigger] ledger.entries@[j]).path@, home@),
                    dir@,
                ),
        decreases ledger.entries.len() - i,
    {
        let at = ledger.entries[i].path.render(home);
        if !path_is(at.as_str(), dir) && path_within(at.as_str(), dir) {
            return Some(i);
        }
        i = i + 1;
    }
    None
}

/// Gives one standing directory to the first entry beneath it.
fn hand_off(ledger: &mut Ledger, home: &str, dir: &str)
    requires
        old(ledger).wf(),
    ensures
        final(ledger).wf(),
        handed_one(old(ledger).entries@, home@, dir@, final(ledger).entries@),
{
    match find_heir(ledger, home, dir) {
        None => {},
        Some(i) => {
            let ghost before = ledger.entries@;
            let claim = to_portable(dir, home);
            let mut heir = ledger.entries.remove(i);
            let mut claims: Vec<Portable> = Vec::new();
            claims.push(Portable { text: claim });
            assert(texts(claims@) =~= seq![claim@]);
            let mut dirs = heir.created_dirs;
            merge(&mut dirs, claims);
            heir.created_dirs = dirs;
            ledger.entries.insert(i, heir);
            proof {
                assert(inherits(before[i as int], portable(dir@, home@), ledger.entries@[i as int]));
                assert forall|j: int| 0 <= j < before.len() && j != i implies #[trigger] ledger.entries@[j]
                    == before[j] by {}
                assert(is_heir(before, home@, dir@, i as int));
            }
        },
    }
}

/// Give each claimed directory that still stands to an entry `ledger` holds
/// beneath it, so the `rm` that removes that entry prunes it.
///
/// The heir is the first entry, in the ledger's own order, whose target is
/// strictly inside the directory. A directory no entry is beneath (one only the
/// user's files keep) is claimed by nobody from here on, and stays.
/// Bookkeeping only: no destination is touched.
pub fn hand_off_claims(ledger: &mut Ledger, home: &str, standing: &Vec<String>)
    requires
        old(ledger).wf(),
    ensures
        final(ledger).wf(),
        exists|dirs: Seq<String>| #[trigger]
            taken(standing@, false, dirs) && handed(
                old(ledger).entries@,
                home@,
                dirs,
                final(ledger).entries@,
            ),
{
    let dirs = in_order(standing, false);
    let ghost before = ledger.entries@;
    let mut n: usize = 0;
    assert(dirs@.subrange(0, 0) =~= Seq::<String>::empty());
    while n < dirs.len()
        invariant
            n <= dirs.len(),
            ledger.wf(),
            handed(before, home@, dirs@.subrange(0, n as int), ledger.entries@),
        decreases dirs.len() - n,
    {
        let ghost mid = ledger.entries@;
        let ghost more = dirs@.subrange(0, n + 1);
        assert(more.drop_last() =~= dirs@.subrange(0, n as int));
        hand_off(ledger, home, dirs[n].as_str());
        assert(handed(before, home@, more, ledger.entries@)) by {
            assert(handed(before, home@, more.drop_last(), mid));
            assert(handed_one(mid, home@, more.last()@, ledger.entries@));
        }
        n = n + 1;
    }
    assert(dirs@.subrange(0, dirs@.len() as int) =~= dirs@);
    assert(taken(standing@, false, dirs@) && handed(before, home@, dirs@, ledger.entries@));
}

/// Giving directories on never loses what the ledger holds: every entry is
/// still there, for the same target, with the same digest, mode, mechanism and
/// prior, and with every claim it had.
pub proof fn a_hand_off_keeps_every_entry(
    before: Seq<LedgerEntry>,
    home: Seq<char>,
    dirs: Seq<String>,
    after: Seq<LedgerEntry>,
)
    requires
        handed(before, home, dirs, after),
    ensures
        after.len() == before.len(),
        forall|i: int|
            0 <= i < before.len() ==> (#[trigger] after[i]).path == before[i].path
                && after[i].written == before[i].written && after[i].mode == before[i].mode
                && after[i].mechanism == before[i].mechanism && after[i].prior == before[i].prior,
        forall|i: int, claim: Seq<char>|
            0 <= i < before.len() && #[trigger] texts(before[i].created_dirs@).contains(claim)
                ==> texts(after[i].created_dirs@).contains(claim),
    decreases dirs.len(),
{
    if dirs.len() > 0 {
        let dir = dirs.last()@;
        let mid = choose|mid: Seq<LedgerEntry>|
            handed(before, home, dirs.drop_last(), mid) && #[trigger] handed_one(
                mid,
                home,
                dirs.last()@,
                after,
            );
        a_hand_off_keeps_every_entry(before, home, dirs.drop_last(), mid);
        assert forall|i: int| 0 <= i < mid.len() implies (#[trigger] after[i]).path == mid[i].path
            && after[i].written == mid[i].written && after[i].mode == mid[i].mode
            && after[i].mechanism == mid[i].mechanism && after[i].prior == mid[i].prior by {}
        assert forall|i: int, claim: Seq<char>|
            0 <= i < before.len() && #[trigger] texts(before[i].created_dirs@).contains(
                claim,
            ) implies texts(after[i].created_dirs@).contains(claim) by {
            assert(texts(mid[i].created_dirs@).contains(claim));
            if after[i] != mid[i] {
                lemma_merged_keeps(texts(mid[i].created_dirs@), portable(dir, home), claim);
            }
        }
    }
}

proof fn lemma_merged_keeps(dirs: Seq<Seq<char>>, more: Seq<char>, claim: Seq<char>)
    requires
        dirs.contains(claim),
    ensures
        merged(dirs, seq![more]).contains(claim),
{
    reveal_with_fuel(merged, 3);
    assert(seq![more].drop_first() =~= Seq::<Seq<char>>::empty());
    lemma_place(dirs, more);
    let k = dirs.index_of(claim);
    let at = place_of(dirs, more);
    if k < at {
        assert(with_path(dirs, more)[k] == claim);
    } else {
        assert(with_path(dirs, more)[k + 1] == claim);
    }
}

/// A directory that is removed is claimed, is where no entry of the ledger is,
/// and is removed before every shallower one; and every claimed directory where
/// no entry is gets its turn.
pub proof fn only_nobodys_directories_are_removed(
    entries: Seq<LedgerEntry>,
    home: Seq<char>,
    dirs: Seq<String>,
    out: Seq<String>,
    i: int,
    e: int,
)
    requires
        prunable(entries, home, dirs, out),
        0 <= i < out.len(),
        0 <= e < entries.len(),
    ensures
        components(rendered(entries[e].path@, home)) != components(out[i]@),
        exists|k: int| 0 <= k < dirs.len() && (#[trigger] dirs[k])@ == out[i]@,
        forall|j: int|
            i < j < out.len() ==> components((#[trigger] out[j])@).len() <= components(
                out[i]@,
            ).len() && components(out[j]@) != components(out[i]@),
        forall|k: int|
            0 <= k < dirs.len() && (forall|d: int|
                0 <= d < entries.len() ==> components(
                    rendered((#[trigger] entries[d]).path@, home),
                ) != components(#[trigger] dirs[k]@)) ==> exists|j: int|
                0 <= j < out.len() && components((#[trigger] out[j])@) == components(dirs[k]@),
{
    assert(!named(entries, home, out[i]@));
    assert forall|j: int| i < j < out.len() implies components((#[trigger] out[j])@).len()
        <= components(out[i]@).len() && components(out[j]@) != components(out[i]@) by {
        assert(taken_before(out[i]@, out[j]@, true));
        lemma_taken_order(out[i]@, out[j]@, out[i]@, true);
    }
    assert forall|k: int|
        0 <= k < dirs.len() && (forall|d: int|
            0 <= d < entries.len() ==> components(rendered((#[trigger] entries[d]).path@, home))
                != components(#[trigger] dirs[k]@)) implies exists|j: int|
        0 <= j < out.len() && components((#[trigger] out[j])@) == components(dirs[k]@) by {
        assert(!named(entries, home, dirs[k]@));
        let j = choose|j: int| 0 <= j < out.len() && same_path((#[trigger] out[j])@, dirs[k]@);
        assert(components(out[j]@) == components(dirs[k]@));
    }
}

/// A directory that still stands is claimed again by the first entry beneath it,
/// where there is one, under its portable spelling.
pub proof fn a_standing_directory_goes_to_the_first_entry_beneath_it(
    before: Seq<LedgerEntry>,
    home: Seq<char>,
    dirs: Seq<String>,
    after: Seq<LedgerEntry>,
    n: int,
    i: int,
)
    requires
        handed(before, home, dirs, after),
        0 <= n < dirs.len(),
        0 <= i < before.len(),
        beneath(rendered(before[i].path@, home), dirs[n]@),
        forall|j: int|
            0 <= j < i ==> !beneath(rendered((#[trigger] before[j]).path@, home), dirs[n]@),
    ensures
        after.len() == before.len(),
        texts(after[i].created_dirs@).contains(portable(dirs[n]@, home)),
    decreases dirs.len(),
{
    let dir = dirs.last()@;
    let less = dirs.drop_last();
    let mid = choose|mid: Seq<LedgerEntry>|
        handed(before, home, less, mid) && #[trigger] handed_one(mid, home, dir, after);
    a_hand_off_keeps_every_entry(before, home, dirs, after);
    a_hand_off_keeps_every_entry(before, home, less, mid);
    if n == dirs.len() - 1 {
        assert(mid[i].path == before[i].path);
        assert(!heirless(mid, home, dir)) by {
            assert(beneath(rendered(mid[i].path@, home), dir));
        }
        let k = choose|k: int|
            #[trigger] is_heir(mid, home, dir, k) && after.len() == mid.len() && inherits(
                mid[k],
                portable(dir, home),
                after[k],
            ) && forall|j: int| 0 <= j < mid.len() && j != k ==> #[trigger] after[j] == mid[j];
        assert(mid[k].path == before[k].path);
        if k < i {
            assert(!beneath(rendered(before[k].path@, home), dirs[n]@));
        }
        if i < k {
            assert(!beneath(rendered(mid[i].path@, home), dir));
        }
        merged_lists_hold_both(
            texts(mid[i].created_dirs@),
            seq![portable(dir, home)],
            portable(dir, home),
        );
        assert(seq![portable(dir, home)][0] == portable(dir, home));
    } else {
        assert(less[n] == dirs[n]);
        a_standing_directory_goes_to_the_first_entry_beneath_it(before, home, less, mid, n, i);
        let claim = portable(dirs[n]@, home);
        if after[i] != mid[i] {
            lemma_merged_keeps(texts(mid[i].created_dirs@), portable(dir, home), claim);
        }
    }
}

/// A claim that an entry did not have is one of a directory that it lies
/// beneath.
pub proof fn an_entry_is_given_only_directories_above_it(
    before: Seq<LedgerEntry>,
    home: Seq<char>,
    dirs: Seq<String>,
    after: Seq<LedgerEntry>,
    i: int,
    claim: Seq<char>,
)
    requires
        handed(before, home, dirs, after),
        0 <= i < before.len(),
        after.len() == before.len(),
        texts(after[i].created_dirs@).contains(claim),
        !texts(before[i].created_dirs@).contains(claim),
    ensures
        exists|n: int|
            0 <= n < dirs.len() && portable((#[trigger] dirs[n])@, home) == claim && beneath(
                rendered(before[i].path@, home),
                dirs[n]@,
            ),
    decreases dirs.len(),
{
    if dirs.len() > 0 {
        let dir = dirs.last()@;
        let less = dirs.drop_last();
        let mid = choose|mid: Seq<LedgerEntry>|
            handed(before, home, less, mid) && #[trigger] handed_one(mid, home, dir, after);
        a_hand_off_keeps_every_entry(before, home, less, mid);
        if texts(mid[i].created_dirs@).contains(claim) {
            an_entry_is_given_only_directories_above_it(before, home, less, mid, i, claim);
            let n = choose|n: int|
                0 <= n < less.len() && portable((#[trigger] less[n])@, home) == claim && beneath(
                    rendered(before[i].path@, home),
                    less[n]@,
                );
            assert(dirs[n] == less[n]);
        } else {
            assert(after[i] != mid[i]);
            let k = choose|k: int|
                #[trigger] is_heir(mid, home, dir, k) && after.len() == mid.len() && inherits(
                    mid[k],
                    portable(dir, home),
                    after[k],
                ) && forall|j: int| 0 <= j < mid.len() && j != k ==> #[trigger] after[j] == mid[j];
            assert(k == i);
            merged_lists_hold_both(
                texts(mid[i].created_dirs@),
                seq![portable(dir, home)],
                claim,
            );
            assert(mid[i].path == before[i].path);
            assert(dirs[dirs.len() - 1]@ == dir);
        }
    }
}

/// Directories are taken each once, in the order of paths or deepest first, and
/// none of them is left out.
pub proof fn every_directory_is_taken_once_in_its_order(
    dirs: Seq<String>,
    deepest: bool,
    out: Seq<String>,
    i: int,
    j: int,
    k: int,
)
    requires
        taken(dirs, deepest, out),
        0 <= i < j < out.len(),
        0 <= k < dirs.len(),
    ensures
        deepest && components(out[i]@).len() != components(out[j]@).len() ==> components(
            out[i]@,
        ).len() > components(out[j]@).len(),
        !deepest || components(out[i]@).len() == components(out[j]@).len() ==> path_before(
            out[i]@,
            out[j]@,
        ),
        exists|n: int| 0 <= n < dirs.len() && (#[trigger] dirs[n])@ == out[i]@,
        exists|n: int| 0 <= n < out.len() && components((#[trigger] out[n])@) == components(dirs[k]@),
{
    reveal(taken);
    assert(taken_before(out[i]@, out[j]@, deepest));
    let n = choose|n: int| 0 <= n < out.len() && same_path((#[trigger] out[n])@, dirs[k]@);
    assert(components(out[n]@) == components(dirs[k]@));
}

} // verus!
