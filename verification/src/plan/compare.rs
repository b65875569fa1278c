//! How what stands at a destination compares with what is wanted there.
//!
//! Nothing here asks who wrote what is there: whether bx may write over it is
//! settled against the ledger afterwards.

use crate::fs::{content, Kind, Mode, Observed, ParentState};
use crate::journal::error::kind_words;
use crate::paths::{portable, to_portable};
use crate::report::Action;
use crate::text::{opt_text, same_bytes};
use vstd::prelude::*;

verus! {

/// What a comparison of what is there with what is wanted found.
#[derive(Debug, PartialEq, Eq)]
pub struct Outcome {
    /// What is to happen.
    pub action: Action,
    /// What is to be said of it.
    pub note: Option<String>,
    /// What is to be said of the directory it is in.
    pub parent_note: Option<String>,
    /// The mode there, and the mode wanted, where they differ.
    pub mode_drift: Option<(Mode, Mode)>,
}

/// What a comparison finds.
pub ghost struct Compared {
    pub action: Action,
    pub note: Option<Seq<char>>,
    pub parent_note: Option<Seq<char>>,
    pub mode_drift: Option<(Mode, Mode)>,
}

impl View for Outcome {
    type V = Compared;

    open spec fn view(&self) -> Compared {
        Compared {
            action: self.action,
            note: opt_text(self.note),
            parent_note: opt_text(self.parent_note),
            mode_drift: self.mode_drift,
        }
    }
}

/// Why a destination's directory cannot hold a file, as it was observed.
pub open spec fn unusable(observed: Observed) -> Option<Seq<char>> {
    match observed.parent {
        Some(above) => match above.state {
            ParentState::Unusable(reason) => Some(reason@),
            _ => None,
        },
        None => None,
    }
}

/// The mode there, and the mode wanted, where they differ.
pub open spec fn drift(observed: Observed, wanted: Mode) -> Option<(Mode, Mode)> {
    match observed.mode {
        Some(found) => if found == wanted {
            None
        } else {
            Some((found, wanted))
        },
        None => None,
    }
}

/// What is said of a mode that differs from the one that is wanted.
pub open spec fn drift_words(moved: Option<(Mode, Mode)>) -> Option<Seq<char>> {
    match moved {
        Some((from, to)) => Some("mode "@ + from.shown() + " -> "@ + to.shown()),
        None => None,
    }
}

/// What is said of a file's directory that is wider on disk than the file is to
/// be.
pub open spec fn wide_words(observed: Observed, mode: Mode, home: Seq<char>) -> Option<Seq<char>> {
    match observed.parent {
        Some(above) => match above.state {
            ParentState::Present(found) => if found.wider_than(mode) {
                Some(
                    portable(above.path@, home) + " is "@ + found.shown()
                        + " on disk, wider than the "@ + mode.shown() + " this file declares"@,
                )
            } else {
                None
            },
            _ => None,
        },
        None => None,
    }
}

/// What a comparison finds: a conflict where the directory cannot hold what is
/// wanted or something of another kind is there, a create where nothing is, and
/// otherwise a change exactly where the bytes or the mode differ. `wanted` is
/// the bytes of a file, or nothing for a directory.
pub open spec fn compared(
    observed: Observed,
    wanted: Option<Seq<u8>>,
    mode: Mode,
    home: Seq<char>,
) -> Compared {
    let parent_note = if wanted is Some {
        wide_words(observed, mode, home)
    } else {
        None
    };
    let fits = if wanted is Some {
        observed.kind is File
    } else {
        observed.kind is Dir
    };
    if unusable(observed) is Some {
        Compared {
            action: Action::Conflict,
            note: unusable(observed),
            parent_note,
            mode_drift: None,
        }
    } else if observed.kind is Absent {
        Compared { action: Action::Create, note: None, parent_note, mode_drift: None }
    } else if !fits {
        let declares = if wanted is Some {
            "a file"@
        } else {
            "a directory"@
        };
        Compared {
            action: Action::Conflict,
            note: Some(kind_words(observed.kind) + ", where the target declares "@ + declares),
            parent_note,
            mode_drift: None,
        }
    } else {
        let moved = drift(observed, mode);
        let same = wanted is Some ==> content(observed) == wanted;
        Compared {
            action: if same && moved is None {
                Action::Unchanged
            } else {
                Action::Modify
            },
            note: drift_words(moved),
            parent_note,
            mode_drift: moved,
        }
    }
}

/// What is said of a file's directory that is wider on disk than the file is to
/// be.
fn wide_note(observed: &Observed, mode: Mode, home: &str) -> (r: Option<String>)
    ensures
        opt_text(r) == wide_words(*observed, mode, home@),
{
    let above = match &observed.parent {
        Some(above) => above,
        None => {
            return None;
        },
    };
    match above.state {
        ParentState::Present(found) => if found.is_wider_than(mode) {
            Some(
                to_portable(above.path.as_str(), home).concat(" is ").concat(
                    found.text().as_str(),
                ).concat(" on disk, wider than the ").concat(mode.text().as_str()).concat(
                    " this file declares",
                ),
            )
        } else {
            None
        },
        _ => None,
    }
}

/// What a comparison finds where what is wanted can be there and something of
/// its kind is.
fn settled(observed: &Observed, same: bool, mode: Mode, parent_note: Option<String>) -> (r: Outcome)
    ensures
        r@ == (Compared {
            action: if same && drift(*observed, mode) is None {
                Action::Unchanged
            } else {
                Action::Modify
            },
            note: drift_words(drift(*observed, mode)),
            parent_note: opt_text(parent_note),
            mode_drift: drift(*observed, mode),
        }),
{
    let moved = match observed.mode {
        Some(found) => if found == mode {
            None
        } else {
            Some((found, mode))
        },
        None => None,
    };
    let action = if same && moved.is_none() {
        Action::Unchanged
    } else {
        Action::Modify
    };
    let note = match moved {
        Some((from, to)) => Some(
            "mode ".to_owned().concat(from.text().as_str()).concat(" -> ").concat(
                to.text().as_str(),
            ),
        ),
        None => None,
    };
    Outcome { action, note, parent_note, mode_drift: moved }
}

/// What stands in the way of what is wanted, or that nothing is there.
fn in_the_way(observed: &Observed, dir: bool, parent_note: &Option<String>) -> (r: Option<Outcome>)
    ensures
        r is None <==> unusable(*observed) is None && (if dir {
            observed.kind is Dir
        } else {
            observed.kind is File
        }),
        r is Some ==> r->0@ == (Compared {
            action: if unusable(*observed) is None && observed.kind is Absent {
                Action::Create
            } else {
                Action::Conflict
            },
            note: if unusable(*observed) is Some {
                unusable(*observed)
            } else if observed.kind is Absent {
                None
            } else {
                Some(
                    kind_words(observed.kind) + ", where the target declares "@ + (if dir {
                        "a directory"@
                    } else {
                        "a file"@
                    }),
                )
            },
            parent_note: opt_text(*parent_note),
            mode_drift: None,
        }),
{
    let parent_note = match parent_note {
        Some(note) => Some(note.clone()),
        None => None,
    };
    if let Some(above) = &observed.parent {
        if let ParentState::Unusable(reason) = &above.state {
            return Some(
                Outcome {
                    action: Action::Conflict,
                    note: Some(reason.clone()),
                    parent_note,
                    mode_drift: None,
                },
            );
        }
    }
    let declares = if dir {
        "a directory"
    } else {
        "a file"
    };
    match (&observed.kind, dir) {
        (Kind::Absent, _) => Some(
            Outcome { action: Action::Create, note: None, parent_note, mode_drift: None },
        ),
        (Kind::File, false) => None,
        (Kind::Dir, true) => None,
        _ => Some(
            Outcome {
                action: Action::Conflict,
                note: Some(
                    observed.kind.text().concat(", where the target declares ").concat(declares),
                ),
                parent_note,
                mode_drift: None,
            },
        ),
    }
}

/// Compare what is there with a file of these bytes at this mode.
pub fn compare(observed: &Observed, bytes: &[u8], mode: Mode, home: &str) -> (r: Outcome)
    ensures
        r@ == compared(*observed, Some(bytes@), mode, home@),
{
    let parent_note = wide_note(observed, mode, home);
    if let Some(outcome) = in_the_way(observed, false, &parent_note) {
        return outcome;
    }
    let same = match &observed.bytes {
        Some(there) => same_bytes(there.as_slice(), bytes),
        None => false,
    };
    settled(observed, same, mode, parent_note)
}

/// Compare what is there with a directory at this mode.
pub fn compare_dir(observed: &Observed, mode: Mode) -> (r: Outcome)
    ensures
        forall|home: Seq<char>| r@ == #[trigger] compared(*observed, None, mode, home),
{
    match in_the_way(observed, true, &None) {
        Some(outcome) => outcome,
        None => settled(observed, true, mode, None),
    }
}

/// What a comparison finds, in every case: a directory that cannot hold what is
/// wanted is a conflict, with its reason; where nothing is there it is to be
/// made; something of another kind is a conflict that names it; and what is of
/// its kind is left exactly where neither its bytes nor its mode differ.
pub proof fn a_comparison_is_settled_by_what_is_there(
    observed: Observed,
    wanted: Option<Seq<u8>>,
    mode: Mode,
    home: Seq<char>,
)
    ensures
        ({
            let found = compared(observed, wanted, mode, home);
            let refused = observed.parent is Some && observed.parent->0.state is Unusable;
            let fits = if wanted is Some {
                observed.kind is File
            } else {
                observed.kind is Dir
            };
            let moved = observed.mode is Some && observed.mode->0 != mode;
            let differs = wanted is Some && !(observed.bytes matches Some(bytes) && bytes@
                == wanted->0);
            &&& refused ==> found.action == Action::Conflict && found.note == Some(
                observed.parent->0.state->Unusable_0@,
            )
            &&& !refused && observed.kind is Absent ==> found.action == Action::Create
                && found.note is None
            &&& !refused && observed.kind !is Absent && !fits ==> found.action == Action::Conflict
                && found.note == Some(
                (match observed.kind {
                    Kind::File => "a file"@,
                    Kind::Dir => "a directory"@,
                    Kind::Other(words) => words@,
                    Kind::Absent => "nothing"@,
                }) + ", where the target declares "@ + if wanted is Some {
                    "a file"@
                } else {
                    "a directory"@
                },
            )
            &&& !refused && fits ==> {
                &&& found.action == Action::Unchanged <==> !moved && !differs
                &&& found.action == Action::Modify <==> moved || differs
                &&& moved ==> found.mode_drift == Some((observed.mode->0, mode)) && found.note
                    == Some("mode "@ + observed.mode->0.shown() + " -> "@ + mode.shown())
                &&& !moved ==> found.mode_drift is None && found.note is None
            }
            &&& refused || !fits ==> found.mode_drift is None
        }),
{
}

/// A directory that is wider on disk than the file in it is to be is said so,
/// with both modes; any other says nothing, and a directory target says nothing
/// of the one it is in.
pub proof fn a_wide_directory_is_said(
    observed: Observed,
    bytes: Seq<u8>,
    mode: Mode,
    home: Seq<char>,
)
    ensures
        compared(observed, None, mode, home).parent_note is None,
        ({
            let said = compared(observed, Some(bytes), mode, home).parent_note;
            match observed.parent {
                Some(above) => match above.state {
                    ParentState::Present(found) => {
                        &&& found.wider_than(mode) ==> said == Some(
                            portable(above.path@, home) + " is "@ + found.shown()
                                + " on disk, wider than the "@ + mode.shown()
                                + " this file declares"@,
                        )
                        &&& !found.wider_than(mode) ==> said is None
                    },
                    _ => said is None,
                },
                None => said is None,
            }
        }),
{
}

} // verus!
