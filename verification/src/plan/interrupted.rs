//! What recovery would do to each write of an interrupted session.

use crate::digest::sha256_of;
use crate::fs::{content, Kind, Mode, Observed};
use crate::journal::files::is_prior;
use crate::journal::load::{intents_of, referred, Loaded};
use crate::journal::record::{Intent, Written};
use crate::paths::{portable, to_portable};
use crate::plan::diff::{between_sides, side, Diff, DiffKind};
use crate::plan::error::Error;
use crate::plan::notes::{list, listed};
use crate::plan::rows::{Change, Interrupted, Origin, Standing, Unfinished};
use crate::plan::target::Resolution;
use crate::plan::wanted::first_at;
use crate::report::Action;
use crate::state::{ContentHash, Mechanism, Prior};
use crate::text::{begins_at, chars_of, opt_text, same_text, strings};
use vstd::prelude::*;

verus! {

/// What the program found at the destination of an interrupted write.
#[derive(Debug, PartialEq, Eq)]
pub struct Rolled {
    /// What is there.
    pub observed: Observed,
    /// The bytes that were there before, where they are kept and can be read.
    pub prior: Option<Vec<u8>>,
    /// Which of the directories the write made still stand as directories.
    pub standing: Vec<String>,
}

/// Whether a write is a directory's.
pub open spec fn of_a_dir(intent: Intent) -> bool {
    intent.mechanism == Some(Mechanism::Dir)
}

fn is_of_a_dir(intent: &Intent) -> (r: bool)
    ensures
        r == of_a_dir(*intent),
{
    match &intent.mechanism {
        Some(Mechanism::Dir) => true,
        _ => false,
    }
}

/// Whether what is there is a state a write announced: nothing, a directory at
/// this mode, or bytes with this digest at this mode.
pub open spec fn is_state(
    observed: Observed,
    dir: bool,
    state: Option<(Seq<u8>, Mode)>,
) -> bool {
    match state {
        None => observed.kind is Absent,
        Some((digest, mode)) => {
            &&& observed.mode == Some(mode)
            &&& if dir {
                observed.kind is Dir
            } else {
                observed.kind is File && content(observed) is Some && sha256_of(
                    content(observed)->0,
                ) == digest
            }
        },
    }
}

/// What a write was to leave.
pub open spec fn state_after(intent: Intent) -> Option<(Seq<u8>, Mode)> {
    match intent.after {
        Written::Absent => None,
        Written::Present { digest, mode } => Some((digest@, mode)),
    }
}

/// What a write displaced.
pub open spec fn state_before(intent: Intent) -> Option<(Seq<u8>, Mode)> {
    match intent.before {
        Prior::Absent => None,
        Prior::Existed(prior) => Some((prior.digest@, prior.mode)),
    }
}

/// Which of the two states a write announced stands at its destination.
pub open spec fn stands(intent: Intent, observed: Observed) -> Standing {
    if is_state(observed, of_a_dir(intent), state_after(intent)) {
        Standing::Written
    } else if is_state(observed, of_a_dir(intent), state_before(intent)) {
        Standing::Before
    } else {
        Standing::Diverged
    }
}

/// Which of the two states a write announced stands at its destination.
pub fn standing_of(intent: &Intent, observed: &Observed) -> (r: Standing)
    ensures
        r == stands(*intent, *observed),
{
    let absent = match &observed.kind {
        Kind::Absent => true,
        _ => false,
    };
    let written = match &intent.after {
        Written::Absent => absent,
        Written::Present { digest, mode } => is_in_state(observed, is_of_a_dir(intent), digest, *mode),
    };
    if written {
        return Standing::Written;
    }
    let before = match &intent.before {
        Prior::Absent => absent,
        Prior::Existed(prior) => is_in_state(
            observed,
            is_of_a_dir(intent),
            &prior.digest,
            prior.mode,
        ),
    };
    if before {
        Standing::Before
    } else {
        Standing::Diverged
    }
}

fn is_in_state(observed: &Observed, dir: bool, digest: &ContentHash, mode: Mode) -> (r: bool)
    ensures
        r == is_state(*observed, dir, Some((digest@, mode))),
{
    let at = match observed.mode {
        Some(found) => found == mode,
        None => false,
    };
    if !at {
        return false;
    }
    match (&observed.kind, &observed.bytes) {
        (Kind::Dir, _) => dir,
        (Kind::File, Some(bytes)) => !dir && ContentHash::of(bytes.as_slice()).same(digest),
        _ => false,
    }
}

/// The first write announced for a target.
pub open spec fn intent_for(intents: Seq<Intent>, target: Seq<char>) -> Option<Intent>
    decreases intents.len(),
{
    if intents.len() == 0 {
        None
    } else if intents[0].target@ == target {
        Some(intents[0])
    } else {
        intent_for(intents.drop_first(), target)
    }
}

/// Where a target was declared: by the first resolved target of that path.
pub open spec fn declared_in(resolutions: Seq<Resolution>, target: Seq<char>) -> Option<Origin>
    decreases resolutions.len(),
{
    if resolutions.len() == 0 {
        None
    } else if resolutions[0] is Ready && resolutions[0]->Ready_0.path@ == target {
        Some(resolutions[0]->Ready_0.origin)
    } else {
        declared_in(resolutions.drop_first(), target)
    }
}

/// The directories recovery removes where empty, shallowest first, as a row
/// names them.
pub open spec fn removed_dirs(
    created: Seq<Seq<char>>,
    standing: Seq<Seq<char>>,
    home: Seq<char>,
) -> Seq<Seq<char>>
    decreases created.len(),
{
    if created.len() == 0 {
        Seq::empty()
    } else if standing.contains(created.last()) {
        seq![portable(created.last(), home)] + removed_dirs(created.drop_last(), standing, home)
    } else {
        removed_dirs(created.drop_last(), standing, home)
    }
}

/// The directories of a write that recovery removes.
pub open spec fn dirs_of(intent: Option<Intent>, facts: Rolled, home: Seq<char>) -> Seq<Seq<char>> {
    match intent {
        Some(intent) => removed_dirs(strings(intent.created_dirs@), strings(facts.standing@), home),
        None => Seq::empty(),
    }
}

/// What rolling a write back does.
pub open spec fn rolls(standing: Standing, intent: Option<Intent>) -> Seq<char> {
    if standing != Standing::Written {
        "rolls back: it already holds what was there before"@
    } else {
        match intent {
            None => "rolls back what the session wrote"@,
            Some(intent) => match intent.before {
                Prior::Existed(_) => if of_a_dir(intent) {
                    "rolls back: puts back the mode it had"@
                } else {
                    "rolls back: puts back what was there before"@
                },
                Prior::Absent => if of_a_dir(intent) {
                    "rolls back: removes the directory the session created where empty"@
                } else {
                    "rolls back: removes the file the session created"@
                },
            },
        }
    }
}

/// Whether recovery is to look at a write: it can account for it, and the
/// session did not finish.
pub open spec fn rolled_back(unfinished: Unfinished, complete: bool) -> bool {
    unfinished.resolvable && !complete
}

/// What happens to a write of an interrupted session, and what is said of it.
pub open spec fn rolled_verdict(
    unfinished: Unfinished,
    complete: bool,
    intent: Option<Intent>,
    facts: Rolled,
    home: Seq<char>,
) -> (Action, Seq<char>) {
    if !unfinished.resolvable {
        (
            Action::Conflict,
            if first_at(unfinished.note@, "abandon"@, 0) is Some {
                unfinished.note@
            } else {
                unfinished.note@
                    + "; recovery cannot put it back, so the interrupted session has to be abandoned"@
            },
        )
    } else if complete {
        (Action::Unchanged, unfinished.note@)
    } else {
        let dirs = dirs_of(intent, facts, home);
        let what = rolls(unfinished.standing, intent);
        (
            if unfinished.standing == Standing::Written || dirs.len() > 0 {
                Action::Modify
            } else {
                Action::Unchanged
            },
            if dirs.len() == 0 {
                what
            } else {
                what + "; removes "@ + listed(dirs, ", "@) + " where empty"@
            },
        )
    }
}

/// The mode a write left, and the mode that was there before, where they differ.
pub open spec fn mode_back(observed: Observed, before: Mode) -> Option<(Mode, Mode)> {
    match observed.mode {
        Some(mode) => if mode != before {
            Some((mode, before))
        } else {
            None
        },
        None => None,
    }
}

/// Whether a diff is the one from what is on disk to what was there before. A
/// directory has no bytes to show: at most its mode moves.
pub open spec fn is_rolled_diff(
    diff: Option<Diff>,
    unfinished: Unfinished,
    complete: bool,
    intent: Option<Intent>,
    facts: Rolled,
) -> bool {
    if !rolled_back(unfinished, complete) || unfinished.standing != Standing::Written || intent
        is None {
        diff is None
    } else if of_a_dir(intent->0) {
        diff == match intent->0.before {
            Prior::Existed(reference) => match mode_back(facts.observed, reference.mode) {
                Some((from, to)) => Some(Diff { kind: DiffKind::Mode { from, to } }),
                None => None,
            },
            Prior::Absent => None,
        }
    } else {
        match intent->0.before {
            Prior::Existed(reference) => match facts.prior {
                Some(prior) => between_sides(
                    diff,
                    unfinished.target@,
                    content(facts.observed),
                    prior@,
                    mode_back(facts.observed, reference.mode),
                ),
                None => diff is None,
            },
            Prior::Absent => between_sides(
                diff,
                unfinished.target@,
                content(facts.observed),
                Seq::empty(),
                None,
            ),
        }
    }
}

/// Whether a change is the row of a write of an interrupted session.
pub open spec fn is_rolled_row(
    change: Change,
    unfinished: Unfinished,
    interrupted: Interrupted,
    intents: Seq<Intent>,
    resolutions: Seq<Resolution>,
    facts: Rolled,
    home: Seq<char>,
) -> bool {
    let intent = intent_for(intents, unfinished.target@);
    let verdict = rolled_verdict(unfinished, interrupted.complete, intent, facts, home);
    &&& change.target@ == unfinished.target@
    &&& match declared_in(resolutions, unfinished.target@) {
        Some(origin) => change.origin == origin,
        None => change.origin.file@ == interrupted.journal@ && change.origin.line == 0,
    }
    &&& change.action == verdict.0
    &&& opt_text(change.note) == Some(verdict.1)
    &&& is_rolled_diff(change.diff, unfinished, interrupted.complete, intent, facts)
}

fn find_intent<'a>(intents: &Vec<&'a Intent>, target: &str) -> (r: Option<&'a Intent>)
    ensures
        match r {
            Some(intent) => intent_for(referred(intents@), target@) == Some(*intent),
            None => intent_for(referred(intents@), target@) is None,
        },
{
    let ghost all = referred(intents@);
    let mut i: usize = 0;
    assert(all.subrange(0, all.len() as int) =~= all);
    while i < intents.len()
        invariant
            i <= intents.len(),
            all == referred(intents@),
            intent_for(all, target@) == intent_for(
                all.subrange(i as int, all.len() as int),
                target@,
            ),
        decreases intents.len() - i,
    {
        let ghost rest = all.subrange(i as int, all.len() as int);
        assert(rest.drop_first() =~= all.subrange(i + 1, all.len() as int));
        assert(rest[0] == *intents@[i as int]);
        if same_text(intents[i].target.text.as_str(), target) {
            return Some(intents[i]);
        }
        i = i + 1;
    }
    None
}

fn find_origin(resolutions: &Vec<Resolution>, target: &str) -> (r: Option<Origin>)
    ensures
        r == declared_in(resolutions@, target@),
{
    let mut i: usize = 0;
    assert(resolutions@.subrange(0, resolutions@.len() as int) =~= resolutions@);
    while i < resolutions.len()
        invariant
            i <= resolutions.len(),
            declared_in(resolutions@, target@) == declared_in(
                resolutions@.subrange(i as int, resolutions@.len() as int),
                target@,
            ),
        decreases resolutions.len() - i,
    {
        let ghost rest = resolutions@.subrange(i as int, resolutions@.len() as int);
        assert(rest.drop_first() =~= resolutions@.subrange(i + 1, resolutions@.len() as int));
        assert(rest[0] == resolutions@[i as int]);
        if let Resolution::Ready(ready) = &resolutions[i] {
            if same_text(ready.path.text.as_str(), target) {
                return Some(ready.origin.clone());
            }
        }
        i = i + 1;
    }
    None
}

fn holds_text(texts: &Vec<String>, text: &str) -> (r: bool)
    ensures
        r == strings(texts@).contains(text@),
{
    let mut i: usize = 0;
    while i < texts.len()
        invariant
            i <= texts.len(),
            forall|j: int| 0 <= j < i ==> strings(texts@)[j] != text@,
        decreases texts.len() - i,
    {
        if same_text(texts[i].as_str(), text) {
            assert(strings(texts@)[i as int] == text@);
            return true;
        }
        i = i + 1;
    }
    false
}

fn dirs_removed(created: &Vec<String>, standing: &Vec<String>, home: &str) -> (r: Vec<String>)
    ensures
        strings(r@) == removed_dirs(strings(created@), strings(standing@), home@),
{
    let ghost all = strings(created@);
    let ghost there = strings(standing@);
    let mut out: Vec<String> = Vec::new();
    let mut i: usize = created.len();
    assert(all.subrange(0, all.len() as int) =~= all);
    assert(strings(out@) + removed_dirs(all, there, home@) =~= removed_dirs(all, there, home@));
    while i > 0
        invariant
            i <= created.len(),
            all == strings(created@),
            there == strings(standing@),
            strings(out@) + removed_dirs(all.subrange(0, i as int), there, home@) == removed_dirs(
                all,
                there,
                home@,
            ),
        decreases i,
    {
        let ghost some = all.subrange(0, i as int);
        let ghost before = out@;
        assert(some.drop_last() =~= all.subrange(0, i - 1));
        assert(some.last() == created@[i - 1]@);
        if holds_text(standing, created[i - 1].as_str()) {
            let shown = to_portable(created[i - 1].as_str(), home);
            out.push(shown);
            assert(strings(out@) =~= strings(before).push(shown@));
            assert(strings(out@) + removed_dirs(some.drop_last(), there, home@) =~= strings(before)
                + removed_dirs(some, there, home@));
        }
        i = i - 1;
    }
    assert(strings(out@) =~= removed_dirs(all, there, home@));
    out
}

fn says(text: &str, part: &str) -> (r: bool)
    ensures
        r == (first_at(text@, part@, 0) is Some),
{
    let chars = chars_of(text);
    let part_chars = chars_of(part);
    let mut at: usize = 0;
    loop
        invariant
            chars@ == text@,
            part_chars@ == part@,
            at <= chars.len(),
            first_at(chars@, part_chars@, 0) == first_at(chars@, part_chars@, at as int),
        decreases chars.len() - at,
    {
        let here = begins_at(chars.as_slice(), at, part_chars.as_slice());
        proof {
            if at + part_chars@.len() <= chars@.len() {
                let rest = chars@.subrange(at as int, chars@.len() as int);
                assert(rest.subrange(0, part_chars@.len() as int) =~= chars@.subrange(
                    at as int,
                    at + part_chars@.len(),
                ));
            }
        }
        if here {
            return true;
        }
        if at == chars.len() {
            assert(first_at(chars@, part_chars@, at + 1) is None);
            return false;
        }
        at = at + 1;
    }
}

fn rolled_row(
    unfinished: &Unfinished,
    interrupted: &Interrupted,
    intent: Option<&Intent>,
    origin: Origin,
    facts: &Rolled,
    home: &str,
) -> (r: Change)
    requires
        rolled_back(*unfinished, interrupted.complete),
    ensures
        ({
            let intent = match intent {
                Some(intent) => Some(*intent),
                None => None,
            };
            let verdict = rolled_verdict(
                *unfinished,
                interrupted.complete,
                intent,
                *facts,
                home@,
            );
            &&& r.target@ == unfinished.target@
            &&& r.origin == origin
            &&& r.action == verdict.0
            &&& opt_text(r.note) == Some(verdict.1)
            &&& is_rolled_diff(r.diff, *unfinished, interrupted.complete, intent, *facts)
        }),
{
    let observed = &facts.observed;
    let written = unfinished.standing == Standing::Written;
    let there: Option<&[u8]> = match &observed.bytes {
        Some(bytes) => Some(bytes.as_slice()),
        None => None,
    };
    assert(side(there) == content(*observed));
    let target = unfinished.target.text.as_str();
    let none: &[u8] = &[];
    assert(none@ =~= Seq::<u8>::empty());
    let (diff, what) = if !written {
        (None, "rolls back: it already holds what was there before")
    } else {
        match intent {
            None => (None, "rolls back what the session wrote"),
            Some(intent) => match &intent.before {
                Prior::Existed(reference) => {
                    let mode = match observed.mode {
                        Some(mode) => if mode != reference.mode {
                            Some((mode, reference.mode))
                        } else {
                            None
                        },
                        None => None,
                    };
                    if is_of_a_dir(intent) {
                        let diff = match mode {
                            Some((from, to)) => Some(Diff::mode(from, to)),
                            None => None,
                        };
                        (diff, "rolls back: puts back the mode it had")
                    } else {
                        let diff = match &facts.prior {
                            Some(prior) => Diff::between(target, there, prior.as_slice(), mode),
                            None => None,
                        };
                        (diff, "rolls back: puts back what was there before")
                    }
                },
                Prior::Absent => if is_of_a_dir(intent) {
                    (None, "rolls back: removes the directory the session created where empty")
                } else {
                    (
                        Diff::between(target, there, none, None),
                        "rolls back: removes the file the session created",
                    )
                },
            },
        }
    };
    let dirs = match intent {
        Some(intent) => dirs_removed(&intent.created_dirs, &facts.standing, home),
        None => Vec::new(),
    };
    proof {
        let intent = match intent {
            Some(intent) => Some(*intent),
            None => None,
        };
        assert(strings(dirs@) =~= dirs_of(intent, *facts, home@));
        assert(strings(dirs@).len() == dirs@.len());
    }
    let note = if dirs.len() == 0 {
        what.to_owned()
    } else {
        what.to_owned().concat("; removes ").concat(list(&dirs, ", ").as_str()).concat(
            " where empty",
        )
    };
    let action = if written || dirs.len() > 0 {
        Action::Modify
    } else {
        Action::Unchanged
    };
    Change { target: unfinished.target.text.clone(), origin, action, diff, note: Some(note) }
}

/// The rows an interrupted session gives a run: what recovery would do to each
/// write the session announced, in the order it announced them.
///
/// A write in a session that did not finish, and that recovery can resolve on
/// its own, is rolled back. Its row is a modify with the diff from what is on
/// disk to what was there before (every line removed, for a file the session
/// created), and names the directories the session created that recovery
/// removes where empty; a directory's shows its mode alone. A write in a session that finished is only recorded,
/// which touches no file, so its row is unchanged. A write recovery cannot
/// account for is a conflict whose note names abandon.
///
/// A snapshot of the prior bytes that cannot be read leaves the row without a
/// diff rather than guessing at one.
///
/// # Errors
///
/// [`Error::Fs`] when the destination of a write that is rolled back cannot be
/// observed.
pub fn interrupted_rows(
    interrupted: &Interrupted,
    loaded: &Loaded,
    resolutions: &Vec<Resolution>,
    facts: &Vec<Result<Rolled, String>>,
    home: &str,
) -> (r: Result<Vec<Change>, Error>)
    requires
        facts@.len() == interrupted.unfinished@.len(),
    ensures
        r is Ok <==> forall|i: int|
            0 <= i < facts@.len() && rolled_back(
                #[trigger] interrupted.unfinished@[i],
                interrupted.complete,
            ) ==> facts@[i] is Ok,
        match r {
            Ok(rows) => rows@.len() == interrupted.unfinished@.len() && forall|i: int|
                0 <= i < rows@.len() ==> is_rolled_row(
                    #[trigger] rows@[i],
                    interrupted.unfinished@[i],
                    *interrupted,
                    intents_of(loaded.frames()),
                    resolutions@,
                    facts@[i]->Ok_0,
                    home@,
                ),
            Err(error) => exists|i: int|
                0 <= i < facts@.len() && rolled_back(
                    #[trigger] interrupted.unfinished@[i],
                    interrupted.complete,
                ) && facts@[i] is Err && (error matches Error::Fs(why) && why@
                    == facts@[i]->Err_0@) && forall|j: int|
                    0 <= j < i && rolled_back(
                        #[trigger] interrupted.unfinished@[j],
                        interrupted.complete,
                    ) ==> facts@[j] is Ok,
        },
{
    let intents = loaded.intents();
    let mut rows: Vec<Change> = Vec::new();
    let mut i: usize = 0;
    while i < interrupted.unfinished.len()
        invariant
            i <= interrupted.unfinished.len(),
            facts@.len() == interrupted.unfinished@.len(),
            referred(intents@) == intents_of(loaded.frames()),
            rows@.len() == i,
            forall|j: int|
                0 <= j < i && rolled_back(
                    #[trigger] interrupted.unfinished@[j],
                    interrupted.complete,
                ) ==> facts@[j] is Ok,
            forall|j: int|
                0 <= j < i ==> is_rolled_row(
                    #[trigger] rows@[j],
                    interrupted.unfinished@[j],
                    *interrupted,
                    intents_of(loaded.frames()),
                    resolutions@,
                    facts@[j]->Ok_0,
                    home@,
                ),
        decreases interrupted.unfinished.len() - i,
    {
        let unfinished = &interrupted.unfinished[i];
        let target = unfinished.target.text.as_str();
        let origin = match find_origin(resolutions, target) {
            Some(origin) => origin,
            None => Origin::unknown(interrupted.journal.as_str()),
        };
        let row = if !unfinished.resolvable {
            let note = if says(unfinished.note.as_str(), "abandon") {
                unfinished.note.clone()
            } else {
                unfinished.note.clone().concat(
                    "; recovery cannot put it back, so the interrupted session has to be abandoned",
                )
            };
            Change {
                target: unfinished.target.text.clone(),
                origin,
                action: Action::Conflict,
                diff: None,
                note: Some(note),
            }
        } else if interrupted.complete {
            Change {
                target: unfinished.target.text.clone(),
                origin,
                action: Action::Unchanged,
                diff: None,
                note: Some(unfinished.note.clone()),
            }
        } else {
            match &facts[i] {
                Err(why) => {
                    assert(rolled_back(
                        interrupted.unfinished@[i as int],
                        interrupted.complete,
                    ));
                    return Err(Error::Fs(why.clone()));
                },
                Ok(facts) => rolled_row(
                    unfinished,
                    interrupted,
                    find_intent(&intents, target),
                    origin,
                    facts,
                    home,
                ),
            }
        };
        rows.push(row);
        i = i + 1;
    }
    Ok(rows)
}

/// A write recovery cannot account for is a conflict, and nothing rolls it
/// back; one it can is never left as a conflict.
pub proof fn only_what_recovery_cannot_account_for_conflicts(
    unfinished: Unfinished,
    complete: bool,
    intent: Option<Intent>,
    facts: Rolled,
    home: Seq<char>,
)
    ensures
        rolled_verdict(unfinished, complete, intent, facts, home).0 == Action::Conflict
            <==> !unfinished.resolvable,
{
}

/// A session that wrote everything touches no file when it is recovered.
pub proof fn a_finished_session_is_only_recorded(
    unfinished: Unfinished,
    intent: Option<Intent>,
    facts: Rolled,
    home: Seq<char>,
)
    requires
        unfinished.resolvable,
    ensures
        rolled_verdict(unfinished, true, intent, facts, home).0 == Action::Unchanged,
{
}

/// Whether an observation is of nothing, or of a regular file.
pub open spec fn is_replaceable(observed: Observed) -> bool {
    match observed.kind {
        Kind::Absent => observed.bytes is None,
        Kind::File => observed.bytes is Some && observed.mode is Some,
        _ => false,
    }
}

/// A session killed at any point leaves a write that recovery can account for:
/// a destination that still holds what the session saw there, or that holds
/// what the session wrote, is in one of the two states its intent names.
pub proof fn an_announced_write_is_accounted_for(
    intent: Intent,
    seen: Observed,
    bytes: Seq<u8>,
    now: Observed,
)
    requires
        is_replaceable(seen),
        is_prior(intent.before, seen),
        !of_a_dir(intent),
        intent.after matches Written::Present { digest, .. } && digest@ == sha256_of(bytes),
        ({
            &&& now.kind is File
            &&& content(now) == Some(bytes)
            &&& now.mode == Some(intent.after->mode)
        }) || ({
            &&& now.kind == seen.kind
            &&& content(now) == content(seen)
            &&& now.mode == seen.mode
        }),
    ensures
        stands(intent, now) != Standing::Diverged,
        content(now) == Some(bytes) && now.kind is File && now.mode == Some(intent.after->mode)
            ==> stands(intent, now) == Standing::Written,
{
}

/// A directory a session announced is accounted for too: one that is still as
/// the session saw it, or that is at the mode the session set, is in one of the
/// two states its intent names.
pub proof fn an_announced_directory_is_accounted_for(
    intent: Intent,
    seen: Observed,
    mode: Mode,
    now: Observed,
)
    requires
        of_a_dir(intent),
        seen.bytes is None,
        seen.kind is Absent && seen.mode is None || seen.kind is Dir && seen.mode is Some,
        is_prior(intent.before, seen),
        intent.after matches Written::Present { mode: left, .. } && left == mode,
        now.kind is Dir && now.mode == Some(mode) || now.kind == seen.kind && now.mode == seen.mode,
    ensures
        stands(intent, now) != Standing::Diverged,
        now.kind is Dir && now.mode == Some(mode) ==> stands(intent, now) == Standing::Written,
{
}

/// A destination is accounted for by the two states its intent names and by
/// nothing else. It is written exactly where it is what the intent was to leave
/// (nothing, a directory at the announced mode, or a file at the announced mode
/// whose bytes have the announced digest), it is as before exactly where it is
/// not that and is what the intent displaced, and anything else has diverged.
pub proof fn only_an_announced_state_is_accounted_for(intent: Intent, observed: Observed)
    ensures
        ({
            let dir = intent.mechanism == Some(Mechanism::Dir);
            let after = match intent.after {
                Written::Absent => observed.kind is Absent,
                Written::Present { digest, mode } => observed.mode == Some(mode) && if dir {
                    observed.kind is Dir
                } else {
                    observed.kind is File && (observed.bytes matches Some(bytes) && sha256_of(
                        bytes@,
                    ) == digest.bytes@)
                },
            };
            let before = match intent.before {
                Prior::Absent => observed.kind is Absent,
                Prior::Existed(prior) => observed.mode == Some(prior.mode) && if dir {
                    observed.kind is Dir
                } else {
                    observed.kind is File && (observed.bytes matches Some(bytes) && sha256_of(
                        bytes@,
                    ) == prior.digest.bytes@)
                },
            };
            &&& stands(intent, observed) == Standing::Written <==> after
            &&& stands(intent, observed) == Standing::Before <==> before && !after
            &&& stands(intent, observed) == Standing::Diverged <==> !before && !after
        }),
{
}

/// A file a session created is only ever reported as the session's where it
/// still holds the bytes the session announced: an edited one is left to its
/// user.
pub proof fn an_edited_file_is_never_the_sessions(intent: Intent, observed: Observed)
    requires
        intent.mechanism != Some(Mechanism::Dir),
        observed.kind is File,
        stands(intent, observed) != Standing::Diverged,
    ensures
        observed.bytes is Some,
        (intent.after matches Written::Present { digest, .. } && digest.bytes@ == sha256_of(
            observed.bytes->0@,
        )) || (intent.before matches Prior::Existed(prior) && prior.digest.bytes@ == sha256_of(
            observed.bytes->0@,
        )),
{
}

/// The write of a target is the first a session announced for it, and its origin
/// is that of the first resolved target of its path; where there is none there is
/// neither.
pub proof fn the_first_of_a_target_counts(
    intents: Seq<Intent>,
    resolutions: Seq<Resolution>,
    target: Seq<char>,
)
    ensures
        match intent_for(intents, target) {
            Some(intent) => exists|i: int|
                0 <= i < intents.len() && #[trigger] intents[i] == intent && intent.target.text@
                    == target && forall|j: int|
                    0 <= j < i ==> (#[trigger] intents[j]).target.text@ != target,
            None => forall|i: int|
                0 <= i < intents.len() ==> (#[trigger] intents[i]).target.text@ != target,
        },
        match declared_in(resolutions, target) {
            Some(origin) => exists|i: int|
                0 <= i < resolutions.len() && (#[trigger] resolutions[i] matches Resolution::Ready(
                    ready,
                ) && ready.path.text@ == target && ready.origin == origin) && forall|j: int|
                    0 <= j < i ==> !(#[trigger] resolutions[j] matches Resolution::Ready(ready)
                        && ready.path.text@ == target),
            None => forall|i: int|
                0 <= i < resolutions.len() ==> !(#[trigger] resolutions[i] matches Resolution::Ready(
                    ready,
                ) && ready.path.text@ == target),
        },
    decreases intents.len() + resolutions.len(),
{
    if intents.len() > 0 && resolutions.len() > 0 {
        lemma_first_intent(intents, target);
        lemma_first_origin(resolutions, target);
    } else if intents.len() > 0 {
        lemma_first_intent(intents, target);
    } else if resolutions.len() > 0 {
        lemma_first_origin(resolutions, target);
    }
}

proof fn lemma_first_intent(intents: Seq<Intent>, target: Seq<char>)
    ensures
        match intent_for(intents, target) {
            Some(intent) => exists|i: int|
                0 <= i < intents.len() && #[trigger] intents[i] == intent && intent.target.text@
                    == target && forall|j: int|
                    0 <= j < i ==> (#[trigger] intents[j]).target.text@ != target,
            None => forall|i: int|
                0 <= i < intents.len() ==> (#[trigger] intents[i]).target.text@ != target,
        },
    decreases intents.len(),
{
    if intents.len() > 0 && intents[0].target@ != target {
        let rest = intents.drop_first();
        lemma_first_intent(rest, target);
        assert forall|i: int| 0 < i < intents.len() implies #[trigger] intents[i]
            == rest[i - 1] by {}
        if let Some(intent) = intent_for(rest, target) {
            let i = choose|i: int|
                0 <= i < rest.len() && #[trigger] rest[i] == intent && intent.target.text@ == target
                    && forall|j: int| 0 <= j < i ==> (#[trigger] rest[j]).target.text@ != target;
            assert(intents[i + 1] == intent);
            assert forall|j: int| 0 <= j < i + 1 implies (#[trigger] intents[j]).target.text@
                != target by {
                if j > 0 {
                    assert(rest[j - 1].target.text@ != target);
                }
            }
        }
    } else if intents.len() > 0 {
        assert(intents[0] == intent_for(intents, target)->0);
    }
}

proof fn lemma_first_origin(resolutions: Seq<Resolution>, target: Seq<char>)
    ensures
        match declared_in(resolutions, target) {
            Some(origin) => exists|i: int|
                0 <= i < resolutions.len() && (#[trigger] resolutions[i] matches Resolution::Ready(
                    ready,
                ) && ready.path.text@ == target && ready.origin == origin) && forall|j: int|
                    0 <= j < i ==> !(#[trigger] resolutions[j] matches Resolution::Ready(ready)
                        && ready.path.text@ == target),
            None => forall|i: int|
                0 <= i < resolutions.len() ==> !(#[trigger] resolutions[i] matches Resolution::Ready(
                    ready,
                ) && ready.path.text@ == target),
        },
    decreases resolutions.len(),
{
    if resolutions.len() > 0 {
        let rest = resolutions.drop_first();
        let here = resolutions[0] is Ready && resolutions[0]->Ready_0.path@ == target;
        if !here {
            lemma_first_origin(rest, target);
            assert forall|i: int| 0 < i < resolutions.len() implies #[trigger] resolutions[i]
                == rest[i - 1] by {}
            if let Some(origin) = declared_in(rest, target) {
                let i = choose|i: int|
                    0 <= i < rest.len() && (#[trigger] rest[i] matches Resolution::Ready(ready)
                        && ready.path.text@ == target && ready.origin == origin) && forall|j: int|
                        0 <= j < i ==> !(#[trigger] rest[j] matches Resolution::Ready(ready)
                            && ready.path.text@ == target);
                assert(resolutions[i + 1] == rest[i]);
                assert forall|j: int| 0 <= j < i + 1 implies !(
                #[trigger] resolutions[j] matches Resolution::Ready(ready) && ready.path.text@
                    == target) by {
                    if j > 0 {
                        assert(resolutions[j] == rest[j - 1]);
                    }
                }
            }
        } else {
            assert(resolutions[0] is Ready);
        }
    }
}

/// Recovery removes those of the directories a write made that still stand, each
/// once, in the opposite of the order they are recorded in, and no other.
pub proof fn only_standing_directories_are_removed(
    some: Seq<Seq<char>>,
    dir: Seq<char>,
    standing: Seq<Seq<char>>,
    home: Seq<char>,
)
    ensures
        standing.contains(dir) ==> removed_dirs(some.push(dir), standing, home) == seq![
            portable(dir, home),
        ] + removed_dirs(some, standing, home),
        !standing.contains(dir) ==> removed_dirs(some.push(dir), standing, home) == removed_dirs(
            some,
            standing,
            home,
        ),
        removed_dirs(Seq::empty(), standing, home).len() == 0,
{
    assert(some.push(dir).drop_last() =~= some);
}

/// What a row of an interrupted session says and shows, in every case. A write
/// recovery cannot account for is a conflict that names abandon and shows
/// nothing. One of a finished session is left as it is. Any other is rolled back:
/// it is a change where the session's work is there or a directory of it stands,
/// and shows what is there against what was there before.
pub proof fn a_row_says_what_recovery_does(
    change: Change,
    unfinished: Unfinished,
    interrupted: Interrupted,
    intents: Seq<Intent>,
    resolutions: Seq<Resolution>,
    facts: Rolled,
    home: Seq<char>,
)
    requires
        is_rolled_row(change, unfinished, interrupted, intents, resolutions, facts, home),
    ensures
        change.target@ == unfinished.target.text@,
        !unfinished.resolvable ==> change.action == Action::Conflict && change.diff is None,
        unfinished.resolvable && interrupted.complete ==> change.action == Action::Unchanged
            && change.diff is None && (change.note matches Some(note) && note@
            == unfinished.note@),
        unfinished.resolvable && !interrupted.complete ==> ({
            let intent = intent_for(intents, unfinished.target.text@);
            let dirs = match intent {
                Some(intent) => removed_dirs(
                    strings(intent.created_dirs@),
                    strings(facts.standing@),
                    home,
                ),
                None => Seq::empty(),
            };
            let there = unfinished.standing == Standing::Written;
            let of_dir = intent is Some && intent->0.mechanism == Some(Mechanism::Dir);
            let what = if !there {
                "rolls back: it already holds what was there before"@
            } else if intent is None {
                "rolls back what the session wrote"@
            } else if intent->0.before is Existed {
                if of_dir {
                    "rolls back: puts back the mode it had"@
                } else {
                    "rolls back: puts back what was there before"@
                }
            } else if of_dir {
                "rolls back: removes the directory the session created where empty"@
            } else {
                "rolls back: removes the file the session created"@
            };
            &&& change.action == Action::Modify <==> there || dirs.len() > 0
            &&& change.action == Action::Unchanged <==> !there && dirs.len() == 0
            &&& change.note matches Some(note) && note@ == if dirs.len() == 0 {
                what
            } else {
                what + "; removes "@ + listed(dirs, ", "@) + " where empty"@
            }
            &&& !there || intent is None ==> change.diff is None
            &&& there && intent is Some && !of_dir && intent->0.before is Absent ==> between_sides(
                change.diff,
                unfinished.target.text@,
                content(facts.observed),
                Seq::empty(),
                None,
            )
            &&& there && intent is Some && !of_dir && intent->0.before is Existed && facts.prior
                is Some ==> between_sides(
                change.diff,
                unfinished.target.text@,
                content(facts.observed),
                facts.prior->0@,
                if facts.observed.mode is Some && facts.observed.mode->0
                    != intent->0.before->Existed_0.mode {
                    Some((facts.observed.mode->0, intent->0.before->Existed_0.mode))
                } else {
                    None
                },
            )
        }),
{
}

/// A write that recovery cannot account for says so, and that the session has to
/// be abandoned, once. A row is shown at its declaration, and in the journal
/// where nothing declares it. A directory shows at most its mode moving back.
pub proof fn a_row_says_what_recovery_cannot_do(
    change: Change,
    unfinished: Unfinished,
    interrupted: Interrupted,
    intents: Seq<Intent>,
    resolutions: Seq<Resolution>,
    facts: Rolled,
    home: Seq<char>,
)
    requires
        is_rolled_row(change, unfinished, interrupted, intents, resolutions, facts, home),
    ensures
        change.note is Some,
        !unfinished.resolvable && (exists|i: int|
            0 <= i && i + 7 <= unfinished.note@.len() && #[trigger] unfinished.note@.subrange(
                i,
                i + 7,
            ) == "abandon"@) ==> change.note->0@ == unfinished.note@,
        !unfinished.resolvable && (forall|i: int|
            0 <= i && i + 7 <= unfinished.note@.len() ==> #[trigger] unfinished.note@.subrange(
                i,
                i + 7,
            ) != "abandon"@) ==> change.note->0@ == unfinished.note@
            + "; recovery cannot put it back, so the interrupted session has to be abandoned"@,
        declared_in(resolutions, unfinished.target.text@) matches Some(origin) ==> change.origin
            == origin,
        declared_in(resolutions, unfinished.target.text@) is None ==> change.origin.file@
            == interrupted.journal@ && change.origin.line == 0,
        unfinished.resolvable && !interrupted.complete && unfinished.standing == Standing::Written
            ==> (intent_for(intents, unfinished.target.text@) matches Some(intent)
            ==> intent.mechanism == Some(Mechanism::Dir) ==> {
            &&& intent.before is Absent ==> change.diff is None
            &&& intent.before matches Prior::Existed(was) ==> {
                &&& facts.observed.mode is None || facts.observed.mode->0 == was.mode
                    ==> change.diff is None
                &&& facts.observed.mode is Some && facts.observed.mode->0 != was.mode
                    ==> change.diff == Some(
                    Diff { kind: DiffKind::Mode { from: facts.observed.mode->0, to: was.mode } },
                )
            }
        }),
        unfinished.resolvable && !interrupted.complete && unfinished.standing == Standing::Written
            ==> (intent_for(intents, unfinished.target.text@) matches Some(intent)
            ==> intent.mechanism != Some(Mechanism::Dir) && intent.before is Existed && facts.prior
            is None ==> change.diff is None),
{
    let note = unfinished.note@;
    reveal_strlit("abandon");
    if !unfinished.resolvable {
        if exists|i: int|
            0 <= i && i + 7 <= note.len() && #[trigger] note.subrange(i, i + 7) == "abandon"@ {
            let i = choose|i: int|
                0 <= i && i + 7 <= note.len() && #[trigger] note.subrange(i, i + 7) == "abandon"@;
            lemma_first_at_found(note, "abandon"@, 0, i);
        } else {
            lemma_first_at_none(note, "abandon"@, 0);
        }
    }
}

proof fn lemma_first_at_found(text: Seq<char>, part: Seq<char>, from: int, i: int)
    requires
        0 <= from <= i,
        i + part.len() <= text.len(),
        text.subrange(i, i + part.len()) == part,
    ensures
        first_at(text, part, from) is Some,
    decreases i - from,
{
    if from < i {
        lemma_first_at_found(text, part, from + 1, i);
    }
}

proof fn lemma_first_at_none(text: Seq<char>, part: Seq<char>, from: int)
    requires
        0 <= from,
        forall|i: int|
            0 <= i && i + part.len() <= text.len() ==> #[trigger] text.subrange(i, i + part.len())
                != part,
    ensures
        first_at(text, part, from) is None,
    decreases text.len() + 1 - from,
{
    if from <= text.len() {
        if from + part.len() <= text.len() {
            assert(text.subrange(from, from + part.len()) != part);
        }
        lemma_first_at_none(text, part, from + 1);
    }
}

} // verus!
