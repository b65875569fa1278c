//! What bx may do to what is already there, by what the ledger says bx owns.

use crate::digest::sha256_of;
use crate::fs::Observed;
use crate::plan::notes::{both, note_of, two_parts_are_joined};
use crate::plan::region::{find, reading, Found};
use crate::report::Action;
use crate::state::{as_written, is_as_written, LedgerEntry, Mechanism};
use crate::text::opt_text;
use vstd::prelude::*;

verus! {

/// How a ledger mechanism reads in a note.
pub open spec fn mechanism_words(mechanism: Mechanism) -> Seq<char> {
    match mechanism {
        Mechanism::Own => "the whole file"@,
        Mechanism::Region { .. } => "a managed region"@,
        Mechanism::Include { .. } => "an include line"@,
        Mechanism::Dir => "a directory"@,
        Mechanism::Clone => "a clone"@,
    }
}

/// How a ledger mechanism reads in a note.
pub fn attached_as(mechanism: &Mechanism) -> (r: &'static str)
    ensures
        r@ == mechanism_words(*mechanism),
{
    match mechanism {
        Mechanism::Own => "the whole file",
        Mechanism::Region { .. } => "a managed region",
        Mechanism::Include { .. } => "an include line",
        Mechanism::Dir => "a directory",
        Mechanism::Clone => "a clone",
    }
}

/// Whether an observation is at the mode an entry records.
pub open spec fn at_mode(observed: Observed, entry: LedgerEntry) -> bool {
    observed.mode == Some(entry.mode)
}

fn is_at_mode(observed: &Observed, entry: &LedgerEntry) -> (r: bool)
    ensures
        r == at_mode(*observed, *entry),
{
    match observed.mode {
        Some(mode) => mode == entry.mode,
        None => false,
    }
}

/// A refusal: a conflict, and why, before whatever was to be said anyway.
pub open spec fn conflict(why: Seq<char>, note: Option<Seq<char>>) -> (
    Action,
    Option<Seq<char>>,
) {
    (Action::Conflict, note_of(seq![Some(why), note]))
}

fn refuse(why: String, note: Option<String>) -> (r: (Action, Option<String>))
    ensures
        (r.0, opt_text(r.1)) == conflict(why@, opt_text(note)),
{
    (Action::Conflict, both(Some(why), note))
}

/// What the comparison found for a file bx owns whole, settled against the
/// ledger.
pub open spec fn owned(
    action: Action,
    observed: Observed,
    entry: Option<LedgerEntry>,
    note: Option<Seq<char>>,
) -> (Action, Option<Seq<char>>) {
    match entry {
        Some(entry) => if action.pending() && entry.mechanism !is Own {
            conflict("bx attached to this file as "@ + mechanism_words(entry.mechanism), note)
        } else if action == Action::Modify && !as_written(observed, entry) {
            conflict("edited since bx last wrote it"@, note)
        } else if action == Action::Modify && !at_mode(observed, entry) {
            conflict("its mode changed since bx wrote it"@, note)
        } else {
            (action, note)
        },
        None => if action == Action::Modify {
            conflict("exists and bx does not own it"@, note)
        } else {
            (action, note)
        },
    }
}

/// Some entry, by value.
pub open spec fn held(entry: Option<&LedgerEntry>) -> Option<LedgerEntry> {
    match entry {
        Some(entry) => Some(*entry),
        None => None,
    }
}

/// Settle what the comparison found against what the ledger says bx owns.
///
/// Only a file bx wrote whole, and that still holds exactly what bx last left,
/// may be modified. Everything else in the way is a conflict: reported and
/// skipped.
pub fn ownership(
    action: Action,
    observed: &Observed,
    entry: Option<&LedgerEntry>,
    note: Option<String>,
) -> (r: (Action, Option<String>))
    ensures
        (r.0, opt_text(r.1)) == owned(action, *observed, held(entry), opt_text(note)),
{
    let entry = match entry {
        None => {
            if action == Action::Modify {
                return refuse("exists and bx does not own it".to_owned(), note);
            }
            return (action, note);
        },
        Some(entry) => entry,
    };
    if action.is_pending() {
        match entry.mechanism {
            Mechanism::Own => {},
            _ => {
                return refuse(
                    "bx attached to this file as ".to_owned().concat(
                        attached_as(&entry.mechanism),
                    ),
                    note,
                );
            },
        }
    }
    if action == Action::Modify && !is_as_written(observed, entry) {
        return refuse("edited since bx last wrote it".to_owned(), note);
    }
    // The bytes are bx's, and the mode is not the one bx set: the user changed
    // it, and a rewrite would undo that. A change to the declared mode alone
    // leaves the disk at the ledger's mode and stays a modify.
    if action == Action::Modify && !is_at_mode(observed, entry) {
        return refuse("its mode changed since bx wrote it".to_owned(), note);
    }
    (action, note)
}

/// Whether bx is attached through a region delimited with `comment`.
pub open spec fn by_region(mechanism: Mechanism, comment: char) -> bool {
    mechanism == (Mechanism::Region { comment })
}

/// What the comparison found for a region target, settled against the ledger.
pub open spec fn region_owned(
    action: Action,
    observed: Observed,
    entry: Option<LedgerEntry>,
    comment: char,
    note: Option<Seq<char>>,
) -> (Action, Option<Seq<char>>) {
    if action.pending() && entry is Some && !by_region(entry->0.mechanism, comment) {
        conflict("bx attached to this file as "@ + mechanism_words(entry->0.mechanism), note)
    } else if action != Action::Modify || observed.bytes is None {
        (action, note)
    } else if reading(observed.bytes->0@, comment) is Absent {
        if entry is Some {
            conflict("bx's region was removed since bx wrote it"@, note)
        } else {
            (action, note)
        }
    } else if entry is None {
        conflict("it holds a bx region bx has no record of writing"@, note)
    } else if !as_written(observed, entry->0) {
        conflict(
            "edited since bx last wrote it, and bx's region differs from what bx wants"@,
            note,
        )
    } else {
        (action, note)
    }
}

/// Settle what the comparison found for a region target against the ledger.
///
/// The region is bx's and the rest of the file is the user's, so an edit
/// outside the region is never a conflict: while the region holds what bx wants
/// the comparison finds nothing to do, and a region appended to a file the user
/// wrote is additive. What is refused is a rewrite that would undo the user's
/// own act on bx's lines:
///
/// * the ledger says bx attached to this file some other way;
/// * bx wrote a region here and it is gone: the user removed it;
/// * a region is there that bx has no record of writing;
/// * the region differs from what bx wants and the file is not as bx last left
///   it. Whether the edit was inside the region or beside it cannot be told
///   from a whole-file record, so the region is left as it is.
///
/// A rewrite of a region bx wrote, in a file nobody else has touched since, is
/// a modify, as a file bx owns whole is.
pub fn region_ownership(
    action: Action,
    observed: &Observed,
    entry: Option<&LedgerEntry>,
    comment: char,
    note: Option<String>,
) -> (r: (Action, Option<String>))
    ensures
        (r.0, opt_text(r.1)) == region_owned(
            action,
            *observed,
            held(entry),
            comment,
            opt_text(note),
        ),
{
    if action.is_pending() {
        if let Some(entry) = entry {
            let ours = match entry.mechanism {
                Mechanism::Region { comment: held } => held == comment,
                _ => false,
            };
            if !ours {
                return refuse(
                    "bx attached to this file as ".to_owned().concat(
                        attached_as(&entry.mechanism),
                    ),
                    note,
                );
            }
        }
    }
    if action != Action::Modify {
        return (action, note);
    }
    let bytes = match &observed.bytes {
        None => {
            return (action, note);
        },
        Some(bytes) => bytes,
    };
    let absent = match find(bytes.as_slice(), comment) {
        Found::Absent => true,
        _ => false,
    };
    match (absent, entry) {
        (true, None) => (action, note),
        (true, Some(_)) => refuse("bx's region was removed since bx wrote it".to_owned(), note),
        (false, None) => refuse(
            "it holds a bx region bx has no record of writing".to_owned(),
            note,
        ),
        (false, Some(entry)) => {
            if is_as_written(observed, entry) {
                (action, note)
            } else {
                refuse(
                    "edited since bx last wrote it, and bx's region differs from what bx wants".to_owned(),
                    note,
                )
            }
        },
    }
}

/// What the comparison found for a directory, settled against the ledger.
pub open spec fn dir_owned(
    action: Action,
    observed: Observed,
    entry: Option<LedgerEntry>,
    note: Option<Seq<char>>,
) -> (Action, Option<Seq<char>>) {
    match entry {
        Some(entry) => if action.pending() && entry.mechanism !is Dir {
            conflict("bx attached to this path as "@ + mechanism_words(entry.mechanism), note)
        } else if action == Action::Modify && !at_mode(observed, entry) {
            conflict("its mode changed since bx set it to "@ + entry.mode.shown(), note)
        } else {
            (action, note)
        },
        None => (action, note),
    }
}

/// Settle what the comparison of a directory found against what the ledger says
/// bx owns.
///
/// A directory bx does not record yet is created where nothing is there, and
/// set to its declared mode where it is: its mode is all bx changes, and the
/// mode it had is recorded so `rm` puts it back. What is refused is a directory
/// the ledger says bx attached to some other way, and one bx set whose mode has
/// changed since: the user's change, which a write would undo.
pub fn dir_ownership(
    action: Action,
    observed: &Observed,
    entry: Option<&LedgerEntry>,
    note: Option<String>,
) -> (r: (Action, Option<String>))
    ensures
        (r.0, opt_text(r.1)) == dir_owned(action, *observed, held(entry), opt_text(note)),
{
    let entry = match entry {
        None => {
            return (action, note);
        },
        Some(entry) => entry,
    };
    if action.is_pending() {
        match entry.mechanism {
            Mechanism::Dir => {},
            _ => {
                return refuse(
                    "bx attached to this path as ".to_owned().concat(
                        attached_as(&entry.mechanism),
                    ),
                    note,
                );
            },
        }
    }
    if action == Action::Modify && !is_at_mode(observed, entry) {
        return refuse(
            "its mode changed since bx set it to ".to_owned().concat(entry.mode.text().as_str()),
            note,
        );
    }
    (action, note)
}

/// A file is modified only where bx owns it whole and it holds exactly what bx
/// last left, at the mode bx left it at.
pub proof fn only_what_bx_wrote_is_modified(
    action: Action,
    observed: Observed,
    entry: Option<LedgerEntry>,
    note: Option<Seq<char>>,
)
    requires
        owned(action, observed, entry, note).0 == Action::Modify,
    ensures
        entry is Some,
        entry->0.mechanism is Own,
        as_written(observed, entry->0),
        at_mode(observed, entry->0),
{
}

/// A region that is there is rewritten only where bx wrote it, in a file nobody
/// else has touched since.
pub proof fn only_a_region_bx_wrote_is_rewritten(
    action: Action,
    observed: Observed,
    entry: Option<LedgerEntry>,
    comment: char,
    note: Option<Seq<char>>,
)
    requires
        observed.bytes is Some,
        reading(observed.bytes->0@, comment) !is Absent,
        region_owned(action, observed, entry, comment, note).0 == Action::Modify,
    ensures
        entry is Some,
        by_region(entry->0.mechanism, comment),
        as_written(observed, entry->0),
{
}

/// Settling a comparison against the ledger never makes work: it leaves the
/// verdict as it is or turns it into a conflict.
pub proof fn the_ledger_only_ever_refuses(
    action: Action,
    observed: Observed,
    entry: Option<LedgerEntry>,
    comment: char,
    note: Option<Seq<char>>,
)
    ensures
        ({
            let settled = owned(action, observed, entry, note).0;
            settled == action || (action.pending() && settled == Action::Conflict)
        }),
        ({
            let settled = region_owned(action, observed, entry, comment, note).0;
            settled == action || (action.pending() && settled == Action::Conflict)
        }),
        ({
            let settled = dir_owned(action, observed, entry, note).0;
            settled == action || (action.pending() && settled == Action::Conflict)
        }),
{
}

/// The ledger refuses a file's write in four cases and in no other: the file is
/// attached to another way, it is changed and bx has no record of it, it is
/// changed and does not hold what bx wrote, or it is changed and is not at the
/// mode bx set. What it does not refuse goes on as it was found, with the same
/// note: a file that is gone is made again, and one that holds what bx wrote is
/// changed.
pub proof fn the_ledger_refuses_only_what_is_not_bxs(
    action: Action,
    observed: Observed,
    entry: Option<LedgerEntry>,
    note: Option<Seq<char>>,
)
    ensures
        owned(action, observed, entry, note) == (action, note) || owned(
            action,
            observed,
            entry,
            note,
        ).0 == Action::Conflict,
        action == Action::Create && (entry is None || entry->0.mechanism is Own) ==> owned(
            action,
            observed,
            entry,
            note,
        ) == (action, note),
        action != Action::Create && action != Action::Modify ==> owned(
            action,
            observed,
            entry,
            note,
        ) == (action, note),
        action == Action::Modify && entry is Some && entry->0.mechanism is Own && (
        observed.bytes matches Some(bytes) && sha256_of(bytes@) == entry->0.written.bytes@)
            && observed.mode == Some(entry->0.mode) ==> owned(action, observed, entry, note) == (
            action,
            note,
        ),
        owned(action, observed, entry, note).0 == Action::Modify ==> entry is Some
            && entry->0.mechanism is Own && observed.mode == Some(entry->0.mode) && (
        observed.bytes matches Some(bytes) && sha256_of(bytes@) == entry->0.written.bytes@),
        owned(action, observed, entry, note).0 == Action::Create ==> entry is None
            || entry->0.mechanism is Own,
{
}

/// The same of a directory: bx refuses one it attached to another way, and one
/// it set whose mode has changed since. What it has no record of it may set.
pub proof fn the_ledger_refuses_only_a_directory_that_moved(
    action: Action,
    observed: Observed,
    entry: Option<LedgerEntry>,
    note: Option<Seq<char>>,
)
    ensures
        dir_owned(action, observed, entry, note) == (action, note) || dir_owned(
            action,
            observed,
            entry,
            note,
        ).0 == Action::Conflict,
        entry is None ==> dir_owned(action, observed, entry, note) == (action, note),
        action != Action::Create && action != Action::Modify ==> dir_owned(
            action,
            observed,
            entry,
            note,
        ) == (action, note),
        entry is Some && entry->0.mechanism is Dir && (action == Action::Modify ==> observed.mode
            == Some(entry->0.mode)) ==> dir_owned(action, observed, entry, note) == (action, note),
        dir_owned(action, observed, entry, note).0.pending() && entry is Some
            ==> entry->0.mechanism is Dir,
        dir_owned(action, observed, entry, note).0 == Action::Modify && entry is Some
            ==> observed.mode == Some(entry->0.mode),
{
}

/// The same of a region: bx refuses a file it attached to another way, a region
/// it wrote that is gone, one it has no record of, and one in a file that was
/// changed since. Where nothing of these holds, what was found goes on.
pub proof fn the_ledger_refuses_only_a_region_that_was_touched(
    action: Action,
    observed: Observed,
    entry: Option<LedgerEntry>,
    comment: char,
    note: Option<Seq<char>>,
)
    ensures
        ({
            let settled = region_owned(action, observed, entry, comment, note);
            let ours = entry is None || entry->0.mechanism == (Mechanism::Region { comment });
            let held = observed.bytes is Some && reading(observed.bytes->0@, comment) !is Absent;
            &&& settled == (action, note) || settled.0 == Action::Conflict
            &&& action != Action::Create && action != Action::Modify ==> settled == (action, note)
            &&& action == Action::Create && ours ==> settled == (action, note)
            &&& settled.0.pending() ==> ours
            &&& action == Action::Modify && ours && observed.bytes is Some ==> (settled == (
                action,
                note,
            ) <==> if held {
                entry is Some && sha256_of(observed.bytes->0@) == entry->0.written.bytes@
            } else {
                entry is None
            })
        }),
{
}

/// What is said of each refusal, before whatever was to be said anyway.
pub proof fn a_refusal_says_why(
    observed: Observed,
    entry: LedgerEntry,
    comment: char,
    note: Option<Seq<char>>,
)
    ensures
        ({
            let said = |why: Seq<char>|
                Some(
                    match note {
                        Some(more) => why + "; "@ + more,
                        None => why,
                    },
                );
            let as_what = match entry.mechanism {
                Mechanism::Own => "the whole file"@,
                Mechanism::Region { .. } => "a managed region"@,
                Mechanism::Include { .. } => "an include line"@,
                Mechanism::Dir => "a directory"@,
                Mechanism::Clone => "a clone"@,
            };
            let same = observed.bytes is Some && sha256_of(observed.bytes->0@)
                == entry.written.bytes@;
            &&& owned(Action::Modify, observed, None, note).1 == said(
                "exists and bx does not own it"@,
            )
            &&& entry.mechanism !is Own ==> owned(Action::Create, observed, Some(entry), note).1
                == said("bx attached to this file as "@ + as_what) && owned(
                Action::Modify,
                observed,
                Some(entry),
                note,
            ).1 == said("bx attached to this file as "@ + as_what)
            &&& entry.mechanism is Own && !same ==> owned(
                Action::Modify,
                observed,
                Some(entry),
                note,
            ).1 == said("edited since bx last wrote it"@)
            &&& entry.mechanism is Own && same && observed.mode != Some(entry.mode) ==> owned(
                Action::Modify,
                observed,
                Some(entry),
                note,
            ).1 == said("its mode changed since bx wrote it"@)
            &&& entry.mechanism !is Dir ==> dir_owned(
                Action::Modify,
                observed,
                Some(entry),
                note,
            ).1 == said("bx attached to this path as "@ + as_what)
            &&& entry.mechanism is Dir && observed.mode != Some(entry.mode) ==> dir_owned(
                Action::Modify,
                observed,
                Some(entry),
                note,
            ).1 == said("its mode changed since bx set it to "@ + entry.mode.shown())
            &&& entry.mechanism != (Mechanism::Region { comment }) ==> region_owned(
                Action::Modify,
                observed,
                Some(entry),
                comment,
                note,
            ).1 == said("bx attached to this file as "@ + as_what)
        }),
{
    let as_what = mechanism_words(entry.mechanism);
    two_parts_are_joined(Some("exists and bx does not own it"@), note);
    two_parts_are_joined(Some("bx attached to this file as "@ + as_what), note);
    two_parts_are_joined(Some("bx attached to this path as "@ + as_what), note);
    two_parts_are_joined(Some("edited since bx last wrote it"@), note);
    two_parts_are_joined(Some("its mode changed since bx wrote it"@), note);
    two_parts_are_joined(
        Some("its mode changed since bx set it to "@ + entry.mode.shown()),
        note,
    );
}

} // verus!
