//! One decision per target: the only code that turns configuration into work.
//!
//! [`decide`] takes what the program read and observed, consults the ledger for
//! ownership, and settles the two. It is handed shared references only and
//! knows nothing of the mode it runs in, so `plan` and `apply` cannot reach
//! different verdicts from one input.
//!
//! An [`Op`] is the write a decision produced. It carries the observation and
//! the bytes the decision was made on: what `apply` writes is what `plan`
//! diffed.
//!
//! [`decide_all`] decides a whole configuration. Directory targets go first,
//! shallowest first, and their writes are made first, so a file is decided
//! against, and published into, a directory already at the mode its target
//! declares, whichever order the two were declared in.

use crate::digest::sha256_of;
use crate::fs::{content, same_observed, Mode, Observed};
use crate::journal::session::{request_claims, Content, Ownership, Request};
use crate::paths::{parent, parent_of, portable, render, rendered, to_portable};
use crate::plan::compare::{compare, compare_dir, compared, drift, unusable, Outcome};
use crate::plan::diff::{between_sides, side, Diff, DiffKind};
use crate::plan::error::Error;
use crate::plan::notes::{both, list, listed, note_of};
use crate::plan::owned::{
    at_mode, dir_owned, dir_ownership, held, owned, ownership, region_owned,
    region_ownership,
};
use crate::plan::parents::{
    created_dirs, creates_words, locked_parent, locked_words, missing_parents, name_dirs,
    named_dirs, parent_note, parent_words, unmade, unusable_parent, unusable_words, Declared, Seen,
    Write,
};
use crate::plan::region::{
    a_second_splice_replaces_the_first, a_spliced_region_is_found, begin, closing, end,
    lemma_empty_file, no_mark, opening, reading, region, splice, spliced, Reading,
};
use crate::plan::rows::Change;
use crate::plan::target::{Attach, Body, Resolution, Target};
use crate::plan::wanted::{is_unread, want, wanted, Want, Wanted};
use crate::report::Action;
use crate::state::{as_written, is_entry, position, Ledger, LedgerEntry, Mechanism, Portable};
use crate::text::{opt_text, same_bytes, strings};
use vstd::prelude::*;
use vstd::utf8::*;

verus! {

/// What the program found out about a destination.
#[derive(Debug, PartialEq, Eq)]
pub struct Facts {
    /// What is there.
    pub observed: Observed,
    /// The directories above it.
    pub seen: Vec<Seen>,
}

/// What a decision may read: nothing it could change.
pub struct Ctx<'a> {
    /// The ledger, as it was read once for the whole run.
    pub ledger: &'a Ledger,
    /// The account's home, which every target path renders against.
    pub home: &'a str,
    /// The directories decided so far that apply leaves at a declared mode.
    pub declared: &'a Declared,
}

/// What an [`Op`] leaves at its destination.
#[derive(Debug, PartialEq, Eq)]
pub enum Made {
    /// A file holding these bytes, owned whole.
    Bytes(Vec<u8>),
    /// A file holding these bytes, whole, of which bx owns the one region
    /// delimited with this comment character.
    Region(Vec<u8>, char),
    /// A directory, created or set to the op's mode.
    Dir,
}

/// One write a decision produced.
///
/// A mode-only change is an `Op` too: the same bytes rewritten at the new mode,
/// journalled like any other write, so `rm` can put the old mode back.
#[derive(Debug, PartialEq, Eq)]
pub struct Op {
    /// The target the write is for.
    pub target: Portable,
    /// Where it goes.
    pub dest: String,
    /// What it leaves there.
    pub made: Made,
    /// What was there when it was decided.
    pub planned: Observed,
    /// The mode it leaves it at.
    pub mode: Mode,
}

/// Whether `request` makes the write `op`.
pub open spec fn asks(request: Request, op: Op) -> bool {
    let (content, mechanism) = match op.made {
        Made::Bytes(bytes) => (Content::Bytes { bytes, planned: op.planned }, Mechanism::Own),
        Made::Region(bytes, comment) => (
            Content::Bytes { bytes, planned: op.planned },
            Mechanism::Region { comment },
        ),
        Made::Dir => (Content::Dir { planned: op.planned }, Mechanism::Dir),
    };
    request == (Request {
        target: op.target,
        dest: op.dest,
        content,
        mode: op.mode,
        ownership: Ownership::Owned(mechanism),
    })
}

impl Op {
    /// The target the write is for.
    pub fn target(&self) -> (r: &Portable)
        ensures
            *r == self.target,
    {
        &self.target
    }

    /// The journal request that makes this write: bx owning the whole file, a
    /// region of it, or the directory.
    ///
    /// A region is written as the whole file it sits in, so the journal holds
    /// the bytes it displaces whole and a roll back restores every one of them.
    pub fn into_request(self) -> (r: Request)
        ensures
            asks(r, self),
    {
        let Op { target, dest, made, planned, mode } = self;
        let (content, mechanism) = match made {
            Made::Bytes(bytes) => (Content::Bytes { bytes, planned }, Mechanism::Own),
            Made::Region(bytes, comment) => (
                Content::Bytes { bytes, planned },
                Mechanism::Region { comment },
            ),
            Made::Dir => (Content::Dir { planned }, Mechanism::Dir),
        };
        Request { target, dest, content, mode, ownership: Ownership::Owned(mechanism) }
    }
}

/// The regular file an observation holds.
pub open spec fn own_file(observed: Observed) -> Option<Seq<u8>> {
    if observed.kind is File {
        content(observed)
    } else {
        None
    }
}

/// The mode a region target leaves its file at: its own where it declares one,
/// the file's where there is one, and the default.
pub open spec fn region_mode(observed: Observed, declared: Option<Mode>) -> Mode {
    if declared is None && own_file(observed) is Some && observed.mode is Some {
        observed.mode->0
    } else {
        Mode::resolved(declared, false)
    }
}

/// The whole file a target leaves, and the mode it leaves it at, unless the
/// region of the file that is there is damaged.
pub open spec fn placed(target: Target, observed: Observed, body: Seq<u8>) -> Result<
    (Seq<u8>, Mode),
    Seq<char>,
> {
    match target.attach {
        Attach::Region { comment } => match own_file(observed) {
            None => Ok((region(comment, body), region_mode(observed, target.mode))),
            Some(file) => match reading(file, comment) {
                Reading::Damaged { why } => Err(why),
                _ => Ok((spliced(file, comment, body), region_mode(observed, target.mode))),
            },
        },
        _ => Ok((body, Mode::resolved(target.mode, false))),
    }
}

/// The whole file a region target leaves, and the mode it leaves it at.
///
/// Every byte outside the region is the file's own, carried through. The mode is
/// the target's when it declares one, and otherwise the file's own, so attaching
/// to a file the user keeps at `0600` never widens it; a file bx creates gets
/// the default.
///
/// # Errors
///
/// Why the file's delimiters do not make one region.
pub fn placed_in_region(
    observed: &Observed,
    comment: char,
    body: &[u8],
    declared: Option<Mode>,
) -> (r: Result<(Vec<u8>, Mode), &'static str>)
    ensures
        match own_file(*observed) {
            None => r matches Ok((whole, mode)) && whole@ == region(comment, body@) && mode
                == region_mode(*observed, declared),
            Some(file) => match reading(file, comment) {
                Reading::Damaged { why } => r matches Err(found) && found@ == why,
                _ => r matches Ok((whole, mode)) && whole@ == spliced(file, comment, body@) && mode
                    == region_mode(*observed, declared),
            },
        },
{
    let is_file = match &observed.kind {
        crate::fs::Kind::File => true,
        _ => false,
    };
    let file: Option<&[u8]> = match &observed.bytes {
        Some(bytes) => if is_file {
            Some(bytes.as_slice())
        } else {
            None
        },
        None => None,
    };
    let there = file.is_some();
    let whole = match splice(file, comment, body) {
        Ok(whole) => whole,
        Err(why) => {
            return Err(why);
        },
    };
    let mode = match (declared, observed.mode) {
        (Some(declared), _) => declared,
        (None, Some(own)) => if there {
            own
        } else {
            Mode::resolve(None, false)
        },
        (None, None) => Mode::resolve(None, false),
    };
    Ok((whole, mode))
}

/// The whole file a target leaves, and the mode it leaves it at.
pub(crate) fn place(target: &Target, observed: &Observed, body: Vec<u8>) -> (r: Result<
    (Vec<u8>, Mode),
    &'static str,
>)
    ensures
        match placed(*target, *observed, body@) {
            Ok((bytes, mode)) => r matches Ok((whole, left)) && whole@ == bytes && left == mode,
            Err(why) => r matches Err(found) && found@ == why,
        },
{
    match target.attach {
        Attach::Region { comment } => placed_in_region(
            observed,
            comment,
            body.as_slice(),
            target.mode,
        ),
        _ => Ok((body, Mode::resolve(target.mode, false))),
    }
}

/// What is said of a file whose region is damaged.
pub open spec fn damage_words(comment: char, why: Seq<char>) -> Seq<char> {
    "bx's region in this file is damaged: "@ + why + ". Leave one `"@ + opening(comment)
        + "` line and one `"@ + closing(comment) + "` line after it, or none"@
}

/// What the ledger holds of a target.
pub open spec fn entry_of(ledger: Ledger, target: Seq<char>) -> Option<LedgerEntry> {
    match position(ledger.entries@, target) {
        Some(i) => Some(ledger.entries@[i]),
        None => None,
    }
}

fn entry<'a>(ledger: &'a Ledger, target: &Portable) -> (r: Option<&'a LedgerEntry>)
    requires
        ledger.wf(),
    ensures
        held(r) == entry_of(*ledger, target@),
{
    match ledger.find(target.text.as_str()) {
        Some(i) => Some(&ledger.entries[i]),
        None => None,
    }
}

/// A note, before the one every row of a generated target carries.
pub open spec fn held_back(target: Target) -> Option<Seq<char>> {
    match target.body {
        Body::Generated(generated) => opt_text(generated.note),
        _ => None,
    }
}

/// Whether a change is a target's row with this action and note, whatever its
/// diff.
pub open spec fn is_row(
    change: Change,
    target: Target,
    action: Action,
    note: Option<Seq<char>>,
) -> bool {
    &&& change.target@ == target.path@
    &&& change.origin == target.origin
    &&& change.action == action
    &&& opt_text(change.note) == note_of(seq![note, held_back(target)])
}

/// A target's row. A generator may hold part of its content back, and every row
/// of its target says so, whatever the row's action.
fn row(target: &Target, action: Action, diff: Option<Diff>, note: Option<String>) -> (r: Change)
    ensures
        is_row(r, *target, action, opt_text(note)),
        r.diff == diff,
{
    let held = match &target.body {
        Body::Generated(generated) => match &generated.note {
            Some(note) => Some(note.clone()),
            None => None,
        },
        _ => None,
    };
    Change {
        target: target.path.text.clone(),
        origin: target.origin.clone(),
        action,
        diff,
        note: both(note, held),
    }
}

/// What happens to a file, and what is said of it, before the row adds what its
/// generator holds back.
pub open spec fn file_verdict(
    target: Target,
    bytes: Seq<u8>,
    mode: Mode,
    facts: Facts,
    ledger: Ledger,
    home: Seq<char>,
    declared: Seq<(Seq<char>, Mode)>,
) -> (Action, Option<Seq<char>>) {
    let observed = facts.observed;
    let seen = facts.seen@;
    let dest = rendered(target.path@, home);
    let outcome = compared(observed, Some(bytes), mode, home);
    let own = match unusable_words(observed, home) {
        Some(reason) => Some(reason),
        None => outcome.note,
    };
    let above = match parent_words(observed, mode, home, declared) {
        Some(note) => note,
        None => outcome.parent_note,
    };
    let note = note_of(seq![own, above]);
    let entry = entry_of(ledger, target.path@);
    let settled = match target.attach {
        Attach::Region { comment } => region_owned(outcome.action, observed, entry, comment, note),
        _ => owned(outcome.action, observed, entry, note),
    };
    let locked = locked_words(observed, dest, home, declared, seen, Write::File);
    if settled.0.pending() && locked is Some {
        (Action::Conflict, note_of(seq![locked, settled.1]))
    } else if settled.0 == Action::Create {
        (Action::Create, note_of(seq![creates_words(observed, home, declared, seen), settled.1]))
    } else {
        settled
    }
}

/// Whether a row shows a diff: a write does, and a conflict over a regular
/// file, since only that has a side to show.
pub open spec fn diff_shown(action: Action, observed: Observed) -> bool {
    action.pending() || (action == Action::Conflict && observed.kind is File)
}

/// Whether a diff is what a row shows. A secret's plaintext, and whatever is on
/// disk where it goes, are never shown: the plan is printed, piped and pasted.
pub open spec fn is_shown(
    diff: Option<Diff>,
    target: Target,
    action: Action,
    observed: Observed,
    bytes: Seq<u8>,
    drift: Option<(Mode, Mode)>,
) -> bool {
    if !diff_shown(action, observed) {
        diff is None
    } else if target.body is Secret {
        diff == match drift {
            Some((from, to)) => if content(observed) == Some(bytes) {
                Some(Diff { kind: DiffKind::Mode { from, to } })
            } else {
                None
            },
            None => None,
        }
    } else {
        between_sides(diff, target.path@, content(observed), bytes, drift)
    }
}

/// Whether `op` is the write of a file target.
pub open spec fn is_file_op(
    op: Op,
    target: Target,
    observed: Observed,
    bytes: Seq<u8>,
    mode: Mode,
    home: Seq<char>,
) -> bool {
    &&& op.target == target.path
    &&& op.dest@ == rendered(target.path@, home)
    &&& match target.attach {
        Attach::Region { comment } => op.made matches Made::Region(whole, delimiter) && whole@
            == bytes && delimiter == comment,
        _ => op.made matches Made::Bytes(whole) && whole@ == bytes,
    }
    &&& same_observed(op.planned, observed)
    &&& op.mode == mode
}

/// Whether a row and a write are what a file target comes to.
pub open spec fn file_decided(
    change: Change,
    op: Option<Op>,
    target: Target,
    body: Seq<u8>,
    facts: Facts,
    ledger: Ledger,
    home: Seq<char>,
    declared: Seq<(Seq<char>, Mode)>,
) -> bool {
    match placed(target, facts.observed, body) {
        Err(why) => {
            &&& is_row(
                change,
                target,
                Action::Conflict,
                Some(damage_words(target.attach->comment, why)),
            )
            &&& change.diff is None
            &&& op is None
        },
        Ok((bytes, mode)) => {
            let verdict = file_verdict(target, bytes, mode, facts, ledger, home, declared);
            &&& is_row(change, target, verdict.0, verdict.1)
            &&& is_shown(
                change.diff,
                target,
                verdict.0,
                facts.observed,
                bytes,
                compared(facts.observed, Some(bytes), mode, home).mode_drift,
            )
            &&& op is Some <==> verdict.0.pending()
            &&& op is Some ==> is_file_op(op->0, target, facts.observed, bytes, mode, home)
        },
    }
}

/// The diff of a write bx may not show.
fn concealed(before: Option<&[u8]>, after: &[u8], mode: Option<(Mode, Mode)>) -> (r: Option<Diff>)
    ensures
        r == match mode {
            Some((from, to)) => if side(before) == Some(after@) {
                Some(Diff { kind: DiffKind::Mode { from, to } })
            } else {
                None
            },
            None => None,
        },
{
    let same = match before {
        Some(bytes) => same_bytes(bytes, after),
        None => false,
    };
    match mode {
        Some((from, to)) => if same {
            Some(Diff::mode(from, to))
        } else {
            None
        },
        None => None,
    }
}

/// What happens to a file, and what is said of it.
fn settle_file(
    target: &Target,
    dest: &str,
    bytes: &[u8],
    mode: Mode,
    outcome: Outcome,
    facts: &Facts,
    ctx: &Ctx<'_>,
) -> (r: (Action, Option<String>))
    requires
        ctx.ledger.wf(),
        dest@ == rendered(target.path@, ctx.home@),
        outcome@ == compared(facts.observed, Some(bytes@), mode, ctx.home@),
    ensures
        (r.0, opt_text(r.1)) == file_verdict(
            *target,
            bytes@,
            mode,
            *facts,
            *ctx.ledger,
            ctx.home@,
            ctx.declared@,
        ),
{
    let observed = &facts.observed;
    // An unusable parent's reason is the comparison's note, spelled with
    // absolute paths; the row names them the way plan output names paths.
    let own = match unusable_parent(observed, ctx.home) {
        Some(reason) => Some(reason),
        None => outcome.note,
    };
    let above = match parent_note(observed, mode, ctx.home, ctx.declared) {
        Some(note) => note,
        None => outcome.parent_note,
    };
    let note = both(own, above);
    let entry = entry(ctx.ledger, &target.path);
    let (action, note) = match target.attach {
        Attach::Region { comment } => region_ownership(
            outcome.action,
            observed,
            entry,
            comment,
            note,
        ),
        _ => ownership(outcome.action, observed, entry, note),
    };
    // A write into a directory its owner cannot write or search is refused here.
    // A row with no write is left as it is: there is nothing to refuse.
    let locked = locked_parent(observed, dest, ctx.home, ctx.declared, &facts.seen, Write::File);
    if action.is_pending() && locked.is_some() {
        return (Action::Conflict, both(locked, note));
    }
    // A create makes every missing parent on the way to its target, and the row
    // names each, so plan announces every directory apply creates.
    if action == Action::Create {
        let creates = created_dirs(observed, ctx.home, ctx.declared, &facts.seen);
        return (Action::Create, both(creates, note));
    }
    (action, note)
}

/// [`decide`] for a target that holds bytes.
fn decide_file(target: &Target, body: Vec<u8>, facts: &Facts, ctx: &Ctx<'_>) -> (r: (
    Change,
    Option<Op>,
))
    requires
        ctx.ledger.wf(),
    ensures
        file_decided(
            r.0,
            r.1,
            *target,
            body@,
            *facts,
            *ctx.ledger,
            ctx.home@,
            ctx.declared@,
        ),
{
    let dest = render(target.path.text.as_str(), ctx.home);
    let observed = &facts.observed;
    let ghost wanted = body@;
    let (bytes, mode) = match place(target, observed, body) {
        Ok(placed) => placed,
        Err(why) => {
            let comment = match target.attach {
                Attach::Region { comment } => comment,
                _ => '#',
            };
            let note = "bx's region in this file is damaged: ".to_owned().concat(why).concat(
                ". Leave one `",
            ).concat(begin(comment).as_str()).concat("` line and one `").concat(
                end(comment).as_str(),
            ).concat("` line after it, or none");
            assert(target.attach is Region);
            return (row(target, Action::Conflict, None, Some(note)), None);
        },
    };
    let outcome = compare(observed, bytes.as_slice(), mode, ctx.home);
    let drift = outcome.mode_drift;
    let (action, note) = settle_file(
        target,
        dest.as_str(),
        bytes.as_slice(),
        mode,
        outcome,
        facts,
        ctx,
    );
    // Only a regular file has a side to show: a directory, a link or an unusable
    // parent is explained by the note alone.
    let is_file = match &observed.kind {
        crate::fs::Kind::File => true,
        _ => false,
    };
    let shown = action.is_pending() || (action == Action::Conflict && is_file);
    let secret = match &target.body {
        Body::Secret(_) => true,
        _ => false,
    };
    let there: Option<&[u8]> = match &observed.bytes {
        Some(bytes) => Some(bytes.as_slice()),
        None => None,
    };
    assert(side(there) == content(*observed));
    let diff = if !shown {
        None
    } else if secret {
        concealed(there, bytes.as_slice(), drift)
    } else {
        Diff::between(
            target.path.text.as_str(),
            there,
            bytes.as_slice(),
            drift,
        )
    };
    let change = row(target, action, diff, note);
    if !action.is_pending() {
        return (change, None);
    }
    let made = match target.attach {
        Attach::Region { comment } => Made::Region(bytes, comment),
        _ => Made::Bytes(bytes),
    };
    let op = Op { target: target.path.clone(), dest, made, planned: observed.clone(), mode };
    (change, Some(op))
}

/// What happens to a directory, and what is said of it.
pub open spec fn dir_verdict(
    target: Target,
    facts: Facts,
    ledger: Ledger,
    home: Seq<char>,
    declared: Seq<(Seq<char>, Mode)>,
) -> (Action, Option<Seq<char>>) {
    let observed = facts.observed;
    let seen = facts.seen@;
    let dest = rendered(target.path@, home);
    let mode = Mode::resolved(target.mode, true);
    let outcome = compared(observed, None, mode, home);
    let note = match unusable_words(observed, home) {
        Some(reason) => Some(reason),
        None => outcome.note,
    };
    let settled = dir_owned(
        outcome.action,
        observed,
        entry_of(ledger, target.path@),
        note,
    );
    let locked = if settled.0 == Action::Create {
        locked_words(observed, dest, home, declared, seen, Write::Create)
    } else if settled.0 == Action::Modify {
        locked_words(observed, dest, home, declared, seen, Write::Chmod)
    } else {
        None
    };
    if locked is Some {
        (Action::Conflict, note_of(seq![locked, settled.1]))
    } else if settled.0 == Action::Create {
        let dirs = named_dirs(unmade(dest, declared, seen), Mode { bits: 0o755 }, home).push(
            portable(dest, home) + " "@ + mode.shown(),
        );
        (Action::Create, note_of(seq![Some("creates "@ + listed(dirs, ", "@)), settled.1]))
    } else {
        settled
    }
}

/// What is said of the root as a directory target.
pub open spec fn root_words() -> Seq<char> {
    "the filesystem root is not a directory bx can create or change"@
}

/// Whether a row and a write are what a directory target comes to.
pub open spec fn dir_decided(
    change: Change,
    op: Option<Op>,
    target: Target,
    facts: Facts,
    ledger: Ledger,
    home: Seq<char>,
    declared: Seq<(Seq<char>, Mode)>,
) -> bool {
    let verdict = dir_verdict(target, facts, ledger, home, declared);
    &&& is_row(change, target, verdict.0, verdict.1)
    &&& change.diff == match drift(facts.observed, Mode::resolved(target.mode, true)) {
        Some((from, to)) => if verdict.0 == Action::Modify {
            Some(Diff { kind: DiffKind::Mode { from, to } })
        } else {
            None
        },
        None => None,
    }
    &&& op is Some <==> verdict.0.pending()
    &&& op is Some ==> {
        &&& op->0.target == target.path
        &&& op->0.dest@ == rendered(target.path@, home)
        &&& op->0.made is Dir
        &&& same_observed(op->0.planned, facts.observed)
        &&& op->0.mode == Mode::resolved(target.mode, true)
    }
}

/// Whether a result is what a directory target comes to: the root is blocked,
/// whatever was found there, and any other is decided from what was found.
pub open spec fn dir_result(
    result: Result<(Change, Option<Op>), Error>,
    target: Target,
    facts: Result<Facts, String>,
    ledger: Ledger,
    home: Seq<char>,
    declared: Seq<(Seq<char>, Mode)>,
) -> bool {
    if parent(rendered(target.path@, home)) is None {
        result matches Ok((change, op)) && is_row(
            change,
            target,
            Action::Blocked,
            Some(root_words()),
        ) && change.diff is None && op is None
    } else {
        match facts {
            Ok(facts) => result matches Ok((change, op)) && dir_decided(
                change,
                op,
                target,
                facts,
                ledger,
                home,
                declared,
            ),
            Err(why) => result matches Err(Error::Fs(found)) && found@ == why@,
        }
    }
}

/// What happens to a directory, and what is said of it.
fn settle_dir(target: &Target, dest: &str, outcome: Outcome, facts: &Facts, ctx: &Ctx<'_>) -> (r: (
    Action,
    Option<String>,
))
    requires
        ctx.ledger.wf(),
        dest@ == rendered(target.path@, ctx.home@),
        outcome@ == compared(
            facts.observed,
            None,
            Mode::resolved(target.mode, true),
            ctx.home@,
        ),
    ensures
        (r.0, opt_text(r.1)) == dir_verdict(
            *target,
            *facts,
            *ctx.ledger,
            ctx.home@,
            ctx.declared@,
        ),
{
    let observed = &facts.observed;
    let note = match unusable_parent(observed, ctx.home) {
        Some(reason) => Some(reason),
        None => outcome.note,
    };
    let (action, note) = dir_ownership(
        outcome.action,
        observed,
        entry(ctx.ledger, &target.path),
        note,
    );
    // Both writes are refused when the parent will deny them, as a file's is: a
    // create needs write and search there, a mode change search.
    let locked = match action {
        Action::Create => locked_parent(
            observed,
            dest,
            ctx.home,
            ctx.declared,
            &facts.seen,
            Write::Create,
        ),
        Action::Modify => locked_parent(
            observed,
            dest,
            ctx.home,
            ctx.declared,
            &facts.seen,
            Write::Chmod,
        ),
        _ => None,
    };
    if locked.is_some() {
        return (Action::Conflict, both(locked, note));
    }
    if action != Action::Create {
        return (action, note);
    }
    let mode = Mode::resolve(target.mode, true);
    let missing = missing_parents(dest, ctx.declared, &facts.seen);
    let mut named = name_dirs(&missing, Mode::default_dir(), ctx.home);
    let ghost before = named@;
    let own = to_portable(dest, ctx.home).concat(" ").concat(mode.text().as_str());
    named.push(own);
    assert(strings(named@) =~= strings(before).push(own@));
    let creates = "creates ".to_owned().concat(list(&named, ", ").as_str());
    (Action::Create, both(Some(creates), note))
}

/// Decide a directory target: create it, set its mode, leave it, or refuse.
///
/// The comparison's verdict is settled against the ledger by [`dir_ownership`].
/// A create is also refused when the directory it would be made in denies its
/// owner write or search, as a file's write is, and a mode change when the
/// directory it is in denies its owner search. Only the directory is decided,
/// never what is inside it, and a mode change is shown as one: there are no
/// bytes to diff. The root is blocked: it has no parent to be made in.
///
/// # Errors
///
/// [`Error::Fs`] when the destination could not be observed.
pub fn decide_dir(target: &Target, facts: &Result<Facts, String>, ctx: &Ctx<'_>) -> (r: Result<
    (Change, Option<Op>),
    Error,
>)
    requires
        ctx.ledger.wf(),
    ensures
        dir_result(r, *target, *facts, *ctx.ledger, ctx.home@, ctx.declared@),
{
    let dest = render(target.path.text.as_str(), ctx.home);
    if parent_of(dest.as_str()).is_none() {
        let note = "the filesystem root is not a directory bx can create or change";
        return Ok((row(target, Action::Blocked, None, Some(note.to_owned())), None));
    }
    let facts = match facts {
        Err(why) => {
            return Err(Error::Fs(why.clone()));
        },
        Ok(facts) => facts,
    };
    let outcome = compare_dir(&facts.observed, Mode::resolve(target.mode, true));
    let drift = outcome.mode_drift;
    let (action, note) = settle_dir(target, dest.as_str(), outcome, facts, ctx);
    let diff = match (action, drift) {
        (Action::Modify, Some((from, to))) => Some(Diff::mode(from, to)),
        _ => None,
    };
    let change = row(target, action, diff, note);
    if !action.is_pending() {
        return Ok((change, None));
    }
    let op = Op {
        target: target.path.clone(),
        dest,
        made: Made::Dir,
        planned: facts.observed.clone(),
        mode: Mode::resolve(target.mode, true),
    };
    Ok((change, Some(op)))
}

/// Whether a result is what a resolved target comes to.
pub open spec fn decided(
    result: Result<(Change, Option<Op>), Error>,
    resolution: Resolution,
    facts: Result<Facts, String>,
    ledger: Ledger,
    home: Seq<char>,
    declared: Seq<(Seq<char>, Mode)>,
) -> bool {
    match resolution {
        Resolution::Blocked(entry) => result matches Ok((change, op)) && {
            &&& change.target@ == entry.key@
            &&& change.origin == entry.origin
            &&& change.action == Action::Blocked
            &&& change.diff is None
            &&& opt_text(change.note) == Some(entry.hint@)
            &&& op is None
        },
        Resolution::Ready(target) => match want(target) {
            Want::Unread { path, source } => result matches Err(error) && is_unread(
                error,
                target.origin,
                path,
                source,
            ),
            Want::Blocked { note } => result matches Ok((change, op)) && is_row(
                change,
                target,
                Action::Blocked,
                Some(note),
            ) && change.diff is None && op is None,
            Want::Dir => dir_result(result, target, facts, ledger, home, declared),
            Want::Bytes { bytes } => match facts {
                Ok(facts) => result matches Ok((change, op)) && file_decided(
                    change,
                    op,
                    target,
                    bytes,
                    facts,
                    ledger,
                    home,
                    declared,
                ),
                Err(why) => result matches Err(Error::Fs(found)) && found@ == why@,
            },
        },
    }
}

/// Decide what to do about one resolved target: its row, and the write it needs
/// when it needs one.
///
/// `facts` is what the program found at the destination, or why it could not be
/// observed; a target that is blocked before its destination matters does not
/// read it.
///
/// # Errors
///
/// [`Error::Body`] when a body cannot be read from the config repo, and
/// [`Error::Fs`] when the destination cannot be observed.
pub fn decide(resolution: &Resolution, facts: &Result<Facts, String>, ctx: &Ctx<'_>) -> (r: Result<
    (Change, Option<Op>),
    Error,
>)
    requires
        ctx.ledger.wf(),
    ensures
        decided(r, *resolution, *facts, *ctx.ledger, ctx.home@, ctx.declared@),
{
    let target = match resolution {
        Resolution::Ready(target) => target,
        Resolution::Blocked(entry) => {
            let change = Change {
                target: entry.key.clone(),
                origin: entry.origin.clone(),
                action: Action::Blocked,
                diff: None,
                note: Some(entry.hint.clone()),
            };
            return Ok((change, None));
        },
    };
    match wanted(target) {
        Err(error) => Err(error),
        Ok(Wanted::Blocked(note)) => Ok((row(target, Action::Blocked, None, Some(note)), None)),
        Ok(Wanted::Dir) => decide_dir(target, facts, ctx),
        Ok(Wanted::Bytes(bytes)) => match facts {
            Err(why) => Err(Error::Fs(why.clone())),
            Ok(facts) => Ok(decide_file(target, bytes, facts, ctx)),
        },
    }
}

/// A row comes with a write exactly when its action is a create or a modify: a
/// conflict and a blocked target are reported and skipped, and nothing that is
/// as it should be is written again.
pub proof fn only_a_create_or_a_modify_writes(
    change: Change,
    op: Option<Op>,
    resolution: Resolution,
    facts: Result<Facts, String>,
    ledger: Ledger,
    home: Seq<char>,
    declared: Seq<(Seq<char>, Mode)>,
)
    requires
        decided(Ok((change, op)), resolution, facts, ledger, home, declared),
    ensures
        op is Some <==> change.action.pending(),
{
}

/// The bytes a write leaves.
pub open spec fn made_bytes(made: Made) -> Option<Seq<u8>> {
    match made {
        Made::Bytes(bytes) => Some(bytes@),
        Made::Region(bytes, _) => Some(bytes@),
        Made::Dir => None,
    }
}

/// What is written is what was shown: a file's diff runs from the bytes the
/// write was planned against to the bytes it leaves.
pub proof fn what_is_written_is_what_was_shown(
    change: Change,
    op: Op,
    target: Target,
    facts: Facts,
    ledger: Ledger,
    home: Seq<char>,
    declared: Seq<(Seq<char>, Mode)>,
)
    requires
        decided(
            Ok((change, Some(op))),
            Resolution::Ready(target),
            Ok(facts),
            ledger,
            home,
            declared,
        ),
        target.body !is Dir,
        target.body !is Secret,
    ensures
        made_bytes(op.made) is Some,
        between_sides(
            change.diff,
            target.path@,
            content(op.planned),
            made_bytes(op.made)->0,
            compared(facts.observed, made_bytes(op.made), op.mode, home).mode_drift,
        ),
{
}

/// A write is asked for where its target renders, as the journal demands of it,
/// and claims no directory of its own.
pub proof fn a_write_is_asked_for_where_its_target_renders(
    change: Change,
    op: Op,
    request: Request,
    resolution: Resolution,
    facts: Result<Facts, String>,
    ledger: Ledger,
    home: Seq<char>,
    declared: Seq<(Seq<char>, Mode)>,
)
    requires
        decided(Ok((change, Some(op))), resolution, facts, ledger, home, declared),
        asks(request, op),
    ensures
        request.dest@ == rendered(request.target@, home),
        request_claims(request).len() == 0,
        request.target@ == change.target@,
{
}

/// No row shows what a secret holds, or what is on disk where it goes: at most
/// it shows that the mode moves.
pub proof fn a_secret_is_never_shown(
    change: Change,
    op: Option<Op>,
    target: Target,
    facts: Result<Facts, String>,
    ledger: Ledger,
    home: Seq<char>,
    declared: Seq<(Seq<char>, Mode)>,
)
    requires
        decided(Ok((change, op)), Resolution::Ready(target), facts, ledger, home, declared),
        target.body is Secret,
    ensures
        change.diff is None || change.diff->0.kind is Mode,
{
}

/// A whole file that is there is written over only where bx wrote it whole, and
/// it still holds exactly what bx last left, at the mode bx left it at.
pub proof fn a_file_is_modified_only_as_bx_left_it(
    change: Change,
    op: Option<Op>,
    target: Target,
    facts: Facts,
    ledger: Ledger,
    home: Seq<char>,
    declared: Seq<(Seq<char>, Mode)>,
)
    requires
        decided(Ok((change, op)), Resolution::Ready(target), Ok(facts), ledger, home, declared),
        target.attach is Own,
        target.body !is Dir,
        change.action == Action::Modify,
    ensures
        entry_of(ledger, target.path@) is Some,
        entry_of(ledger, target.path@)->0.mechanism is Own,
        as_written(facts.observed, entry_of(ledger, target.path@)->0),
        at_mode(facts.observed, entry_of(ledger, target.path@)->0),
{
}

/// A region that is decided on is one a session writes: a file bx shares through
/// one, and that is there, is as bx last left it.
pub proof fn a_region_is_written_only_over_what_bx_left(
    change: Change,
    op: Op,
    target: Target,
    facts: Facts,
    ledger: Ledger,
    home: Seq<char>,
    declared: Seq<(Seq<char>, Mode)>,
)
    requires
        decided(
            Ok((change, Some(op))),
            Resolution::Ready(target),
            Ok(facts),
            ledger,
            home,
            declared,
        ),
        op.made is Region,
        entry_of(ledger, target.path@) is Some,
        facts.observed.kind is File,
        facts.observed.bytes is Some,
    ensures
        as_written(facts.observed, entry_of(ledger, target.path@)->0),
{
}

/// A write is refused where the directory it goes into denies its owner what
/// the write needs: no file is created or modified through a locked parent.
pub proof fn nothing_is_written_through_a_locked_parent(
    change: Change,
    op: Option<Op>,
    target: Target,
    facts: Facts,
    ledger: Ledger,
    home: Seq<char>,
    declared: Seq<(Seq<char>, Mode)>,
)
    requires
        decided(Ok((change, op)), Resolution::Ready(target), Ok(facts), ledger, home, declared),
        target.body !is Dir,
        locked_words(
            facts.observed,
            rendered(target.path@, home),
            home,
            declared,
            facts.seen@,
            Write::File,
        ) is Some,
    ensures
        op is None,
        !change.action.pending(),
{
}

/// Whether a body that is placed in a region makes one region: its comment is no
/// newline, and it holds no delimiter line itself.
pub open spec fn makes_one_region(target: Target, body: Seq<u8>) -> bool {
    target.attach matches Attach::Region { comment } ==> comment != '\n' && no_mark(
        body,
        encode_utf8(opening(comment)),
    ) && no_mark(body, encode_utf8(closing(comment)))
}

/// Running apply twice changes nothing the second time: where a file holds what
/// the first run left there, at the mode it left it at, in a directory that can
/// hold it, the second run finds nothing to do, shows nothing and writes
/// nothing.
///
/// A region body that itself holds a delimiter line, and a newline as the
/// comment character, are left out: neither makes one region.
pub proof fn a_second_apply_changes_nothing(
    target: Target,
    body: Seq<u8>,
    before: Observed,
    change: Change,
    op: Option<Op>,
    facts: Facts,
    ledger: Ledger,
    home: Seq<char>,
    declared: Seq<(Seq<char>, Mode)>,
)
    requires
        want(target) == (Want::Bytes { bytes: body }),
        placed(target, before, body) is Ok,
        facts.observed.kind is File,
        content(facts.observed) == Some(placed(target, before, body)->Ok_0.0),
        facts.observed.mode == Some(placed(target, before, body)->Ok_0.1),
        unusable(facts.observed) is None,
        makes_one_region(target, body),
        decided(Ok((change, op)), Resolution::Ready(target), Ok(facts), ledger, home, declared),
    ensures
        placed(target, facts.observed, body) == placed(target, before, body),
        change.action == Action::Unchanged,
        change.diff is None,
        op is None,
{
    if let Attach::Region { comment } = target.attach {
        let file = match own_file(before) {
            Some(file) => file,
            None => Seq::empty(),
        };
        lemma_empty_file(comment, body);
        a_spliced_region_is_found(file, comment, body);
        a_second_splice_replaces_the_first(file, comment, body, body);
    }
}

/// A directory that is there, at the mode its target declares, is left as it is.
pub proof fn a_directory_at_its_mode_is_left(
    target: Target,
    change: Change,
    op: Option<Op>,
    facts: Facts,
    ledger: Ledger,
    home: Seq<char>,
    declared: Seq<(Seq<char>, Mode)>,
)
    requires
        want(target) is Dir,
        parent(rendered(target.path@, home)) is Some,
        facts.observed.kind is Dir,
        facts.observed.mode == Some(Mode::resolved(target.mode, true)),
        unusable(facts.observed) is None,
        decided(Ok((change, op)), Resolution::Ready(target), Ok(facts), ledger, home, declared),
    ensures
        change.action == Action::Unchanged,
        change.diff is None,
        op is None,
{
}

/// What the ledger holds of a target is the one entry of that path, where it has
/// one.
pub proof fn an_entry_is_the_targets_own(ledger: Ledger, target: Seq<char>)
    requires
        ledger.wf(),
    ensures
        entry_of(ledger, target) is None <==> (forall|k: int|
            0 <= k < ledger.entries@.len() ==> (#[trigger] ledger.entries@[k]).path@ != target),
        forall|k: int|
            0 <= k < ledger.entries@.len() && (#[trigger] ledger.entries@[k]).path@ == target
                ==> entry_of(ledger, target) == Some(ledger.entries@[k]),
        entry_of(ledger, target) matches Some(entry) ==> entry.path@ == target
            && ledger.entries@.contains(entry),
{
    assert forall|k: int|
        0 <= k < ledger.entries@.len() && (
        #[trigger] ledger.entries@[k]).path@ == target implies entry_of(ledger, target) == Some(
        ledger.entries@[k],
    ) by {
        assert(is_entry(ledger.entries@, target, k));
        ledger.lemma_position(target, k);
    }
    if let Some(i) = position(ledger.entries@, target) {
        assert(is_entry(ledger.entries@, target, i));
        assert(ledger.entries@[i].path@ == target);
    } else {
        assert forall|k: int| 0 <= k < ledger.entries@.len() implies (
        #[trigger] ledger.entries@[k]).path@ != target by {
            assert(!is_entry(ledger.entries@, target, k));
        }
    }
}

/// What becomes of a file bx owns whole, in every case.
///
/// It is made exactly where nothing is there, its directory can hold it and does
/// not deny the write, and bx has no record of it or owns it whole. It is
/// changed exactly where a file is there that differs in its bytes or its mode,
/// in such a directory, that bx wrote whole and that still holds what bx wrote at
/// the mode bx set. It is left exactly where it holds the wanted bytes at the
/// wanted mode. Everything else is a conflict.
pub proof fn a_file_is_decided_by_what_is_there_and_who_wrote_it(
    change: Change,
    op: Option<Op>,
    target: Target,
    bytes: Seq<u8>,
    facts: Facts,
    ledger: Ledger,
    home: Seq<char>,
    declared: Seq<(Seq<char>, Mode)>,
)
    requires
        decided(Ok((change, op)), Resolution::Ready(target), Ok(facts), ledger, home, declared),
        want(target) == (Want::Bytes { bytes }),
        target.attach is Own,
    ensures
        ({
            let there = facts.observed;
            let mode = match target.mode {
                Some(mode) => mode,
                None => Mode { bits: 0o644 },
            };
            let usable = !(there.parent matches Some(above) && above.state is Unusable);
            let locked = locked_words(
                there,
                rendered(target.path@, home),
                home,
                declared,
                facts.seen@,
                Write::File,
            ) is Some;
            let entry = entry_of(ledger, target.path@);
            let same = (there.bytes matches Some(found) && found@ == bytes) && (there.mode is None
                || there.mode == Some(mode));
            let as_left = entry is Some && entry->0.mechanism is Own && there.mode == Some(
                entry->0.mode,
            ) && (there.bytes matches Some(found) && sha256_of(found@) == entry->0.written.bytes@);
            &&& change.action == Action::Create <==> usable && there.kind is Absent && !locked && (
            entry is None || entry->0.mechanism is Own)
            &&& change.action == Action::Modify <==> usable && there.kind is File && !same
                && as_left && !locked
            &&& change.action == Action::Unchanged <==> usable && there.kind is File && same
            &&& change.action == Action::Create || change.action == Action::Modify || change.action
                == Action::Unchanged || change.action == Action::Conflict
            &&& op is Some <==> change.action == Action::Create || change.action == Action::Modify
            &&& op is Some ==> {
                &&& op->0.made matches Made::Bytes(left) && left@ == bytes
                &&& op->0.mode == mode
                &&& op->0.target == target.path
                &&& op->0.dest@ == rendered(target.path@, home)
                &&& op->0.planned.path == there.path
                &&& op->0.planned.kind == there.kind
                &&& op->0.planned.mode == there.mode
                &&& content(op->0.planned) == content(there)
                &&& op->0.planned.stamp == there.stamp
            }
        }),
{
}

/// What becomes of a file bx owns a region of, in every case. `file` is what is
/// there, where a regular file is, and `whole` what it is to hold.
///
/// It is made where nothing is there, and changed where the region it holds is
/// not the wanted one and is bx's to change: there is none and bx never wrote
/// one, or bx wrote it and the file is as bx left it. Every byte outside the
/// region is the file's own.
pub proof fn a_region_is_decided_by_what_is_there_and_who_wrote_it(
    change: Change,
    op: Option<Op>,
    target: Target,
    comment: char,
    body: Seq<u8>,
    facts: Facts,
    ledger: Ledger,
    home: Seq<char>,
    declared: Seq<(Seq<char>, Mode)>,
)
    requires
        decided(Ok((change, op)), Resolution::Ready(target), Ok(facts), ledger, home, declared),
        want(target) == (Want::Bytes { bytes: body }),
        target.attach == (Attach::Region { comment }),
    ensures
        ({
            let there = facts.observed;
            let is_file = there.kind is File && there.bytes is Some;
            let file = if is_file {
                there.bytes->0@
            } else {
                Seq::empty()
            };
            let damaged = is_file && reading(file, comment) is Damaged;
            let held = is_file && reading(file, comment) !is Absent;
            let whole = if is_file {
                spliced(file, comment, body)
            } else {
                region(comment, body)
            };
            let mode = match target.mode {
                Some(mode) => mode,
                None => if is_file && there.mode is Some {
                    there.mode->0
                } else {
                    Mode { bits: 0o644 }
                },
            };
            let usable = !(there.parent matches Some(above) && above.state is Unusable);
            let locked = locked_words(
                there,
                rendered(target.path@, home),
                home,
                declared,
                facts.seen@,
                Write::File,
            ) is Some;
            let entry = entry_of(ledger, target.path@);
            let ours = entry is None || entry->0.mechanism == (Mechanism::Region { comment });
            let same = is_file && file == whole && (there.mode is None || there.mode == Some(mode));
            &&& damaged ==> change.action == Action::Conflict && op is None
            &&& !damaged ==> {
                &&& change.action == Action::Create <==> usable && there.kind is Absent && !locked
                    && ours
                &&& there.bytes is Some ==> (change.action == Action::Modify <==> usable && is_file
                    && !same && ours && !locked && if held {
                    entry is Some && sha256_of(file) == entry->0.written.bytes@
                } else {
                    entry is None
                })
                &&& change.action == Action::Unchanged <==> usable && there.kind is File && same
                &&& op is Some <==> change.action == Action::Create || change.action
                    == Action::Modify
                &&& op is Some ==> {
                    &&& op->0.made matches Made::Region(left, mark) && left@ == whole && mark
                        == comment
                    &&& op->0.mode == mode
                    &&& op->0.target == target.path
                    &&& op->0.dest@ == rendered(target.path@, home)
                    &&& content(op->0.planned) == content(there)
                }
            }
        }),
{
}

/// What becomes of a directory, in every case. It is made exactly where nothing
/// is there, and set exactly where one is at another mode, where its parent can
/// hold it and does not deny what that needs, and the ledger says nothing of it
/// or that bx set it, at the mode it is still at. It is left exactly where it is
/// at its mode.
pub proof fn a_directory_is_decided_by_what_is_there_and_who_set_it(
    change: Change,
    op: Option<Op>,
    target: Target,
    facts: Facts,
    ledger: Ledger,
    home: Seq<char>,
    declared: Seq<(Seq<char>, Mode)>,
)
    requires
        decided(Ok((change, op)), Resolution::Ready(target), Ok(facts), ledger, home, declared),
        want(target) is Dir,
        parent(rendered(target.path@, home)) is Some,
    ensures
        ({
            let there = facts.observed;
            let dest = rendered(target.path@, home);
            let mode = match target.mode {
                Some(mode) => mode,
                None => Mode { bits: 0o755 },
            };
            let usable = !(there.parent matches Some(above) && above.state is Unusable);
            let entry = entry_of(ledger, target.path@);
            let ours = entry is None || entry->0.mechanism is Dir;
            let same = there.mode is None || there.mode == Some(mode);
            &&& change.action == Action::Create <==> usable && there.kind is Absent && ours
                && locked_words(there, dest, home, declared, facts.seen@, Write::Create) is None
            &&& change.action == Action::Modify <==> usable && there.kind is Dir && !same && ours
                && (entry is Some ==> there.mode == Some(entry->0.mode)) && locked_words(
                there,
                dest,
                home,
                declared,
                facts.seen@,
                Write::Chmod,
            ) is None
            &&& change.action == Action::Unchanged <==> usable && there.kind is Dir && same
            &&& change.action == Action::Create || change.action == Action::Modify || change.action
                == Action::Unchanged || change.action == Action::Conflict
            &&& op is Some <==> change.action == Action::Create || change.action == Action::Modify
            &&& op is Some ==> op->0.made is Dir && op->0.mode == mode && op->0.target
                == target.path && op->0.dest@ == dest
            &&& change.action == Action::Modify ==> change.diff == Some(
                Diff { kind: DiffKind::Mode { from: there.mode->0, to: mode } },
            )
            &&& change.action != Action::Modify ==> change.diff is None
        }),
{
}

/// The root is blocked, whatever was found there: it has no directory to be made
/// in.
pub proof fn the_root_is_never_a_directory_target(
    result: Result<(Change, Option<Op>), Error>,
    target: Target,
    facts: Result<Facts, String>,
    ledger: Ledger,
    home: Seq<char>,
    declared: Seq<(Seq<char>, Mode)>,
)
    requires
        decided(result, Resolution::Ready(target), facts, ledger, home, declared),
        want(target) is Dir,
        parent(rendered(target.path@, home)) is None,
    ensures
        result matches Ok((change, op)) && change.action == Action::Blocked && op is None,
{
}

/// A row is its target's: it names the target as the configuration spells it and
/// where it was declared, whatever was decided. A target that is held back, or
/// that cannot be written yet, is blocked, says why, and writes nothing.
pub proof fn a_row_is_its_targets(
    change: Change,
    op: Option<Op>,
    resolution: Resolution,
    facts: Result<Facts, String>,
    ledger: Ledger,
    home: Seq<char>,
    declared: Seq<(Seq<char>, Mode)>,
)
    requires
        decided(Ok((change, op)), resolution, facts, ledger, home, declared),
    ensures
        match resolution {
            Resolution::Ready(target) => {
                &&& change.target@ == target.path.text@
                &&& change.origin == target.origin
                &&& want(target) matches Want::Blocked { note } ==> change.action
                    == Action::Blocked && op is None && change.diff is None
                &&& change.action == Action::Blocked ==> want(target) is Blocked || want(
                    target,
                ) is Dir
            },
            Resolution::Blocked(held) => {
                &&& change.target@ == held.key@
                &&& change.origin == held.origin
                &&& change.action == Action::Blocked
                &&& change.note matches Some(note) && note@ == held.hint@
                &&& change.diff is None
                &&& op is None
            },
        },
{
}

/// What of a file is shown: a write of a file that is no secret is shown as the
/// difference of what is there and what is to be, and so is a conflict over a
/// regular file; nothing else is shown.
pub proof fn every_write_of_a_file_is_shown(
    change: Change,
    op: Option<Op>,
    target: Target,
    bytes: Seq<u8>,
    facts: Facts,
    ledger: Ledger,
    home: Seq<char>,
    declared: Seq<(Seq<char>, Mode)>,
)
    requires
        decided(Ok((change, op)), Resolution::Ready(target), Ok(facts), ledger, home, declared),
        want(target) == (Want::Bytes { bytes }),
        target.body !is Secret,
        target.attach is Own,
    ensures
        change.action == Action::Create || change.action == Action::Modify || (change.action
            == Action::Conflict && facts.observed.kind is File) ==> ({
            let before = match facts.observed.bytes {
                Some(found) => Some(found@),
                None => None,
            };
            &&& before != Some(bytes) ==> change.diff is Some
            &&& change.diff matches Some(diff) ==> diff.kind is Mode ==> before == Some(bytes)
        }),
        change.action == Action::Unchanged || (change.action == Action::Conflict
            && facts.observed.kind !is File) ==> change.diff is None,
{
}

} // verus!
