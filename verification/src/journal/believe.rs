//! Which journals bx believes.
//!
//! A journal is believed only as far as a session could have written it,
//! because everything recovery does with one (unlink a temporary file, rewrite
//! or unlink a destination, remove directories) is done to the paths it stores.
//! A journal that fails any rule below is bytes bx never wrote, so it can never
//! drive a rollback.

use crate::journal::record::{Begin, Intent, Record};
use crate::paths::{
    absolute, beside, components, file_name, file_name_of, is_absolute, parent_components, path_is,
    path_within, render, rendered, same_path, within,
};
use crate::state::Portable;
use crate::text::{begins, begins_with, same_text};
use vstd::prelude::*;

verus! {

/// Whether a portable path may stand in the records of an account with this
/// home: it is not the absolute spelling of a path the home holds, which would
/// be a second key for its `~` spelling.
pub open spec fn portable_against(path: Seq<char>, home: Seq<char>) -> bool {
    !(absolute(path) && within(path, home))
}

impl Portable {
    /// Whether the path may stand in the records of an account with this home.
    pub fn check_against(&self, home: &str) -> (r: bool)
        ensures
            r == portable_against(self@, home@),
    {
        !(is_absolute(self.text.as_str()) && path_within(self.text.as_str(), home))
    }

    /// Where the path is, on the account whose home is `home`.
    pub fn render(&self, home: &str) -> (r: String)
        ensures
            r@ == rendered(self@, home@),
    {
        render(self.text.as_str(), home)
    }
}

/// Whether `temp` is where a write to `dest` stages its bytes: another file of
/// the same directory whose name starts with `.bx-`.
pub open spec fn staged_beside(temp: Seq<char>, dest: Seq<char>) -> bool {
    &&& !same_path(temp, dest)
    &&& parent_components(temp) == parent_components(dest)
    &&& file_name(temp) matches Some(name) && begins(name, ".bx-"@)
}

/// Whether `dir` is no strict parent of `dest` below `home`.
pub open spec fn stray(dir: Seq<char>, dest: Seq<char>, home: Seq<char>) -> bool {
    same_path(dir, dest) || !within(dest, dir) || within(home, dir)
}

/// The first of `dirs`, if any, that is not a strict parent of `dest` below
/// `home`.
///
/// The one rule for a directory bx may claim it created for a destination,
/// shared by the loader, which refuses a journal breaking it, and by a session,
/// which refuses a removal that would write such a journal.
pub fn stray_created_dir(dest: &str, home: &str, dirs: &[String]) -> (r: Option<usize>)
    ensures
        match r {
            Some(i) => i < dirs@.len() && stray(dirs@[i as int]@, dest@, home@) && forall|j: int|
                0 <= j < i ==> !stray((#[trigger] dirs@[j])@, dest@, home@),
            None => forall|j: int|
                0 <= j < dirs@.len() ==> !stray((#[trigger] dirs@[j])@, dest@, home@),
        },
{
    let mut i: usize = 0;
    while i < dirs.len()
        invariant
            i <= dirs.len(),
            forall|j: int| 0 <= j < i ==> !stray((#[trigger] dirs@[j])@, dest@, home@),
        decreases dirs.len() - i,
    {
        let dir = dirs[i].as_str();
        if path_is(dir, dest) || !path_within(dest, dir) || path_within(home, dir) {
            return Some(i);
        }
        i = i + 1;
    }
    None
}

/// Why an intent stores a path its own target could not have, if it does.
pub open spec fn misplacement(intent: Intent, home: Seq<char>) -> Option<Seq<char>> {
    if !same_path(intent.dest@, rendered(intent.target@, home)) {
        Some("an intent's destination is not where its target renders"@)
    } else if intent.temp is Some && !staged_beside(intent.temp->0@, intent.dest@) {
        Some("an intent's temporary file is not a bx temporary file beside its destination"@)
    } else if exists|j: int|
        0 <= j < intent.created_dirs@.len() && stray(
            (#[trigger] intent.created_dirs@[j])@,
            intent.dest@,
            home,
        ) {
        Some("an intent's created directory is not a parent of its destination below the home"@)
    } else {
        None
    }
}

/// A reason as it is handed out.
pub open spec fn reason(why: Option<&'static str>) -> Option<Seq<char>> {
    match why {
        Some(why) => Some(why@),
        None => None,
    }
}

/// Why an intent stores a path its own target could not have, if it does.
///
/// The destination is exactly where the target renders, the temporary file is
/// a `.bx-` file beside the destination, and each created directory is a parent
/// of the destination that is neither the home nor above it.
pub fn misplaced(intent: &Intent, home: &str) -> (r: Option<&'static str>)
    ensures
        reason(r) == misplacement(*intent, home@),
{
    let dest = intent.dest.as_str();
    if !path_is(dest, intent.target.render(home).as_str()) {
        return Some("an intent's destination is not where its target renders");
    }
    if let Some(temp) = &intent.temp {
        let temp = temp.as_str();
        let staged = !path_is(temp, dest) && beside(temp, dest) && match file_name_of(temp) {
            Some(name) => begins_with(name.as_str(), ".bx-"),
            None => false,
        };
        if !staged {
            return Some(
                "an intent's temporary file is not a bx temporary file beside its destination",
            );
        }
    }
    match stray_created_dir(dest, home, intent.created_dirs.as_slice()) {
        Some(i) => {
            assert(stray(intent.created_dirs@[i as int]@, intent.dest@, home@));
            Some("an intent's created directory is not a parent of its destination below the home")
        },
        None => None,
    }
}

/// Whether a record stores a portable path that its session's home refuses.
pub open spec fn foreign(record: Record, home: Seq<char>) -> bool {
    match record {
        Record::Begin(begin) => exists|j: int|
            0 <= j < begin.scope@.len() && !portable_against(
                (#[trigger] begin.scope@[j])@,
                home,
            ),
        Record::Intent(intent) => !portable_against(intent.target@, home),
        Record::Done(done) => !portable_against(done.target@, home),
        Record::End(_) => false,
    }
}

/// Whether every one of `scope` may stand in the records of this home.
pub fn scope_is_portable(scope: &[Portable], home: &str) -> (r: Result<(), usize>)
    ensures
        match r {
            Ok(_) => forall|j: int|
                0 <= j < scope@.len() ==> portable_against((#[trigger] scope@[j])@, home@),
            Err(i) => i < scope@.len() && !portable_against(scope@[i as int]@, home@)
                && forall|j: int|
                0 <= j < i ==> portable_against((#[trigger] scope@[j])@, home@),
        },
{
    let mut i: usize = 0;
    while i < scope.len()
        invariant
            i <= scope.len(),
            forall|j: int| 0 <= j < i ==> portable_against((#[trigger] scope@[j])@, home@),
        decreases scope.len() - i,
    {
        if !scope[i].check_against(home) {
            return Err(i);
        }
        i = i + 1;
    }
    Ok(())
}

fn is_foreign(record: &Record, home: &str) -> (r: bool)
    ensures
        r == foreign(*record, home@),
{
    match record {
        Record::Begin(begin) => match scope_is_portable(begin.scope.as_slice(), home) {
            Ok(_) => false,
            Err(i) => {
                assert(!portable_against(begin.scope@[i as int]@, home@));
                true
            },
        },
        Record::Intent(intent) => !intent.target.check_against(home),
        Record::Done(done) => !done.target.check_against(home),
        Record::End(_) => false,
    }
}

/// Whether an earlier record than `i` announces a write to `target`, the header
/// aside.
pub open spec fn written_before(records: Seq<Record>, target: Seq<char>, i: int) -> bool {
    exists|j: int|
        1 <= j < i && (#[trigger] records[j]) is Intent && records[j]->Intent_0.target@ == target
}

/// What is wrong with one record after the header, if anything is.
pub open spec fn record_fault(records: Seq<Record>, home: Seq<char>, i: int) -> Option<Seq<char>> {
    match records[i] {
        Record::Begin(_) => Some("it has a second session header"@),
        Record::End(_) => if i + 1 < records.len() {
            Some("a record follows the end of its session"@)
        } else {
            None
        },
        Record::Intent(intent) => if misplacement(intent, home) is Some {
            misplacement(intent, home)
        } else if written_before(records, intent.target@, i) {
            Some("it records two writes to one target"@)
        } else {
            None
        },
        Record::Done(_) => None,
    }
}

/// The first fault of the records from `i` on, if they have one.
pub open spec fn first_fault(records: Seq<Record>, home: Seq<char>, i: int) -> Option<Seq<char>>
    decreases records.len() - i,
{
    if i >= records.len() {
        None
    } else if record_fault(records, home, i) is Some {
        record_fault(records, home, i)
    } else {
        first_fault(records, home, i + 1)
    }
}

/// Why some records could not have been written by a bx session, if they could
/// not.
pub open spec fn refused(records: Seq<Record>) -> Option<Seq<char>> {
    if records.len() == 0 {
        None
    } else {
        match records[0] {
            Record::Begin(begin) => if !absolute(begin.home@) {
                Some("its session header names a home that is not an absolute UTF-8 path"@)
            } else if exists|j: int|
                0 <= j < records.len() && foreign(#[trigger] records[j], begin.home@) {
                Some("it records a path that is not portable against its session's home"@)
            } else {
                first_fault(records, begin.home@, 1)
            },
            _ => Some("it records a session with no header before it"@),
        }
    }
}

/// Why the journal could not have been written by a bx session, if it could
/// not.
///
/// * **A header first, and only first.** Every other rule needs the home, and
///   the home is the [`Begin`]'s. A session writes exactly one, as the file's
///   first frame, and writes nothing after its end.
/// * **Portable paths.** The header's scope, and each intent's and completion's
///   target, are portable against the header's home.
/// * **An intent's paths are its target's.** See [`misplaced`].
/// * **One write per target.**
#[verifier::loop_isolation(false)]
pub fn refusal(records: &[Record]) -> (r: Option<&'static str>)
    ensures
        reason(r) == refused(records@),
{
    if records.len() == 0 {
        return None;
    }
    let begin: &Begin = match &records[0] {
        Record::Begin(begin) => begin,
        _ => {
            return Some("it records a session with no header before it");
        },
    };
    let home = begin.home.as_str();
    if !is_absolute(home) {
        return Some("its session header names a home that is not an absolute UTF-8 path");
    }
    let mut i: usize = 0;
    while i < records.len()
        invariant
            i <= records.len(),
            forall|j: int| 0 <= j < i ==> !foreign(#[trigger] records@[j], home@),
        decreases records.len() - i,
    {
        if is_foreign(&records[i], home) {
            assert(foreign(records@[i as int], home@));
            return Some("it records a path that is not portable against its session's home");
        }
        i = i + 1;
    }
    let mut i: usize = 1;
    while i < records.len()
        invariant
            1 <= i <= records.len(),
            first_fault(records@, home@, 1) == first_fault(records@, home@, i as int),
        decreases records.len() - i,
    {
        match &records[i] {
            Record::Begin(_) => {
                return Some("it has a second session header");
            },
            Record::End(_) => {
                if i + 1 < records.len() {
                    return Some("a record follows the end of its session");
                }
            },
            Record::Intent(intent) => {
                let why = misplaced(intent, home);
                if why.is_some() {
                    return why;
                }
                if repeats(records, i, intent) {
                    return Some("it records two writes to one target");
                }
            },
            Record::Done(_) => {},
        }
        assert(record_fault(records@, home@, i as int) is None);
        i = i + 1;
    }
    None
}

/// Whether a record before `at` announces a write to the intent's target.
fn repeats(records: &[Record], at: usize, intent: &Intent) -> (r: bool)
    requires
        at <= records.len(),
    ensures
        r == written_before(records@, intent.target@, at as int),
{
    let mut j: usize = 1;
    while j < at
        invariant
            1 <= j,
            j <= at || at == 0,
            at <= records.len(),
            !written_before(records@, intent.target@, j as int),
        decreases at - j,
    {
        if let Record::Intent(other) = &records[j] {
            if same_text(other.target.text.as_str(), intent.target.text.as_str()) {
                assert(records@[j as int] is Intent && records@[j as int]->Intent_0.target@
                    == intent.target@);
                return true;
            }
        }
        j = j + 1;
    }
    false
}

/// Fewer records of a believed journal are believed: what a crash cuts off its
/// end never makes the rest unbelievable.
pub proof fn a_shorter_journal_is_believed(records: Seq<Record>, n: int)
    requires
        refused(records) is None,
        0 <= n <= records.len(),
    ensures
        refused(records.take(n)) is None,
{
    let less = records.take(n);
    if n > 0 {
        let home = records[0]->Begin_0.home@;
        assert forall|j: int| 0 <= j < less.len() implies !foreign(#[trigger] less[j], home) by {
            assert(!foreign(records[j], home));
        }
        lemma_shorter_faults(records, home, n, 1);
    }
}

proof fn lemma_shorter_faults(records: Seq<Record>, home: Seq<char>, n: int, i: int)
    requires
        1 <= i,
        0 < n <= records.len(),
        first_fault(records, home, i) is None,
    ensures
        first_fault(records.take(n), home, i) is None,
    decreases records.len() - i,
{
    let less = records.take(n);
    if i < n {
        lemma_shorter_faults(records, home, n, i + 1);
        assert(record_fault(records, home, i) is None);
        assert(less[i] == records[i]);
        if records[i] is Intent {
            let target = records[i]->Intent_0.target@;
            if written_before(less, target, i) {
                let j = choose|j: int|
                    1 <= j < i && (#[trigger] less[j]) is Intent && less[j]->Intent_0.target@
                        == target;
                assert(records[j] is Intent);
                assert(written_before(records, target, i));
            }
        }
    }
}

/// What a session may append and still be believed: a record that stores no
/// foreign path and has no fault of its own, after records that hold no end.
pub proof fn a_longer_journal_is_believed(records: Seq<Record>, next: Record)
    requires
        records.len() > 0,
        refused(records) is None,
        records.last() !is End,
        !foreign(next, records[0]->Begin_0.home@),
        record_fault(records.push(next), records[0]->Begin_0.home@, records.len() as int) is None,
    ensures
        refused(records.push(next)) is None,
{
    let more = records.push(next);
    let home = records[0]->Begin_0.home@;
    assert forall|j: int| 0 <= j < more.len() implies !foreign(#[trigger] more[j], home) by {
        if j < records.len() {
            assert(more[j] == records[j]);
        }
    }
    lemma_longer_faults(records, next, home, 1);
}

proof fn lemma_longer_faults(records: Seq<Record>, next: Record, home: Seq<char>, i: int)
    requires
        1 <= i,
        i <= records.len(),
        records.last() !is End,
        first_fault(records, home, i) is None,
        record_fault(records.push(next), home, records.len() as int) is None,
    ensures
        first_fault(records.push(next), home, i) is None,
    decreases records.len() - i,
{
    let more = records.push(next);
    if i < records.len() {
        lemma_longer_faults(records, next, home, i + 1);
        assert(record_fault(records, home, i) is None);
        assert(more[i] == records[i]);
        if records[i] is Intent {
            let target = records[i]->Intent_0.target@;
            if written_before(more, target, i) {
                let j = choose|j: int|
                    1 <= j < i && (#[trigger] more[j]) is Intent && more[j]->Intent_0.target@
                        == target;
                assert(records[j] is Intent);
                assert(written_before(records, target, i));
            }
        }
    } else {
        assert(first_fault(more, home, i + 1) is None);
    }
}

/// A stored path is foreign only where it spells out, absolutely, a path that
/// the home holds.
pub proof fn only_an_absolute_spelling_under_the_home_is_foreign(path: Seq<char>, home: Seq<char>)
    ensures
        !absolute(path) ==> portable_against(path, home),
        !components(home).is_prefix_of(components(path)) ==> portable_against(path, home),
        absolute(path) && components(home).is_prefix_of(components(path)) ==> !portable_against(
            path,
            home,
        ),
{
}

/// An intent is believed only at its target's own place, staged in another file
/// of the same directory named `.bx-` something, and with directories above the
/// destination that are neither the home nor above it. Where it is not, the
/// first of these that fails is what is said.
pub proof fn only_a_targets_own_paths_are_believed(intent: Intent, home: Seq<char>)
    ensures
        ({
            let dest = components(intent.dest@);
            let placed = dest == components(rendered(intent.target@, home));
            let staged = intent.temp matches Some(temp) ==> components(temp@) != dest
                && parent_components(temp@) == parent_components(intent.dest@) && file_name(
                temp@,
            ) is Some && ".bx-"@.is_prefix_of(file_name(temp@)->0);
            let above = forall|j: int|
                0 <= j < intent.created_dirs@.len() ==> ({
                    let dir = components((#[trigger] intent.created_dirs@[j])@);
                    dir.is_prefix_of(dest) && dir != dest && !dir.is_prefix_of(components(home))
                });
            &&& misplacement(intent, home) is None <==> placed && staged && above
            &&& !placed ==> misplacement(intent, home) == Some(
                "an intent's destination is not where its target renders"@,
            )
            &&& placed && !staged ==> misplacement(intent, home) == Some(
                "an intent's temporary file is not a bx temporary file beside its destination"@,
            )
            &&& placed && staged && !above ==> misplacement(intent, home) == Some(
                "an intent's created directory is not a parent of its destination below the home"@,
            )
        }),
{
    if let Some(temp) = intent.temp {
        if let Some(name) = file_name(temp@) {
            assert(begins(name, ".bx-"@) <==> ".bx-"@.is_prefix_of(name));
        }
    }
    assert forall|j: int| 0 <= j < intent.created_dirs@.len() implies ({
        let dir = components((#[trigger] intent.created_dirs@[j])@);
        let dest = components(intent.dest@);
        !stray(intent.created_dirs@[j]@, intent.dest@, home) <==> dir.is_prefix_of(dest) && dir
            != dest && !dir.is_prefix_of(components(home))
    }) by {}
}

proof fn lemma_faults(records: Seq<Record>, home: Seq<char>, i: int)
    requires
        0 <= i <= records.len(),
    ensures
        first_fault(records, home, i) is None <==> forall|k: int|
            i <= k < records.len() ==> (#[trigger] record_fault(records, home, k)) is None,
    decreases records.len() - i,
{
    if i < records.len() {
        lemma_faults(records, home, i + 1);
        if record_fault(records, home, i) is None {
            if first_fault(records, home, i + 1) is None {
                assert forall|k: int| i <= k < records.len() implies (#[trigger] record_fault(
                    records,
                    home,
                    k,
                )) is None by {}
            }
        }
    }
}

/// A journal is believed if and only if a session could have written it: one
/// header, first, with an absolute home; only portable paths; every write where
/// its target is, staged beside it, with directories of its own; no target
/// twice; and nothing behind an end.
pub proof fn a_journal_is_believed_if_a_session_could_have_written_it(records: Seq<Record>)
    requires
        records.len() > 0,
    ensures
        refused(records) is None <==> ({
            let home = records[0]->Begin_0.home@;
            &&& records[0] is Begin
            &&& absolute(home)
            &&& forall|j: int|
                0 <= j < records[0]->Begin_0.scope@.len() ==> portable_against(
                    (#[trigger] records[0]->Begin_0.scope@[j])@,
                    home,
                )
            &&& forall|i: int| 1 <= i < records.len() ==> (#[trigger] records[i]) !is Begin
            &&& forall|i: int| 0 <= i < records.len() - 1 ==> (#[trigger] records[i]) !is End
            &&& forall|i: int|
                1 <= i < records.len() ==> ((#[trigger] records[i]) matches Record::Intent(intent)
                    ==> portable_against(intent.target@, home) && misplacement(intent, home) is None)
            &&& forall|i: int|
                1 <= i < records.len() ==> ((#[trigger] records[i]) matches Record::Done(done)
                    ==> portable_against(done.target@, home))
            &&& forall|i: int, j: int|
                1 <= i < j < records.len() && (#[trigger] records[i]) is Intent && (
                #[trigger] records[j]) is Intent ==> records[i]->Intent_0.target@
                    != records[j]->Intent_0.target@
        }),
{
    if records[0] is Begin {
        let home = records[0]->Begin_0.home@;
        lemma_faults(records, home, 1);
        if refused(records) is None {
            assert forall|i: int| 0 <= i < records.len() implies !foreign(
                #[trigger] records[i],
                home,
            ) && (i > 0 ==> record_fault(records, home, i) is None) by {}
            assert forall|i: int, j: int|
                1 <= i < j < records.len() && (#[trigger] records[i]) is Intent && (
                #[trigger] records[j]) is Intent implies records[i]->Intent_0.target@
                != records[j]->Intent_0.target@ by {
                assert(!foreign(records[j], home));
                assert(record_fault(records, home, j) is None);
            }
            assert(!foreign(records[0], home));
        } else if absolute(home) && forall|j: int|
            0 <= j < records.len() ==> !foreign(#[trigger] records[j], home) {
            let k = choose|k: int|
                1 <= k < records.len() && (#[trigger] record_fault(records, home, k)) is Some;
            if records[k] is Intent && misplacement(records[k]->Intent_0, home) is None {
                assert(written_before(records, records[k]->Intent_0.target@, k));
            }
        } else if absolute(home) {
            let j = choose|j: int| 0 <= j < records.len() && foreign(#[trigger] records[j], home);
            if j > 0 {
                assert(records[j] is Begin || records[j] is Intent || records[j] is Done);
            }
        }
    }
}

proof fn lemma_first_fault(records: Seq<Record>, home: Seq<char>, from: int, i: int)
    requires
        0 <= from <= i < records.len(),
        forall|j: int| from <= j < i ==> (#[trigger] record_fault(records, home, j)) is None,
        record_fault(records, home, i) is Some,
    ensures
        first_fault(records, home, from) == record_fault(records, home, i),
    decreases i - from,
{
    if from < i {
        lemma_first_fault(records, home, from + 1, i);
    }
}

/// What is said of a journal that is not believed is what is wrong with it: that
/// it has no header, or one of a home that is not absolute, or a foreign path;
/// and otherwise what is wrong with the first record that cannot stand where it
/// does.
pub proof fn what_is_wrong_with_a_journal_is_said(records: Seq<Record>, i: int)
    requires
        records.len() > 0,
    ensures
        records[0] !is Begin ==> refused(records) == Some(
            "it records a session with no header before it"@,
        ),
        records[0] matches Record::Begin(begin) ==> ({
            let home = begin.home@;
            let clean = forall|j: int|
                0 <= j < records.len() ==> !foreign(#[trigger] records[j], home);
            let sound = forall|j: int|
                1 <= j < i ==> (#[trigger] record_fault(records, home, j)) is None;
            &&& !absolute(home) ==> refused(records) == Some(
                "its session header names a home that is not an absolute UTF-8 path"@,
            )
            &&& absolute(home) && !clean ==> refused(records) == Some(
                "it records a path that is not portable against its session's home"@,
            )
            &&& absolute(home) && clean && 1 <= i < records.len() && sound ==> {
                &&& records[i] is Begin ==> refused(records) == Some(
                    "it has a second session header"@,
                )
                &&& records[i] is End && i + 1 < records.len() ==> refused(records) == Some(
                    "a record follows the end of its session"@,
                )
                &&& records[i] matches Record::Intent(intent) ==> {
                    &&& misplacement(intent, home) is Some ==> refused(records) == misplacement(
                        intent,
                        home,
                    )
                    &&& misplacement(intent, home) is None && (exists|j: int|
                        1 <= j < i && (#[trigger] records[j]) is Intent
                            && records[j]->Intent_0.target@ == intent.target@) ==> refused(records)
                        == Some("it records two writes to one target"@)
                }
            }
        }),
{
    if let Record::Begin(begin) = records[0] {
        let home = begin.home@;
        if 1 <= i < records.len() && record_fault(records, home, i) is Some && forall|j: int|
            1 <= j < i ==> (#[trigger] record_fault(records, home, j)) is None {
            lemma_first_fault(records, home, 1, i);
        }
    }
}

} // verus!
