//! The records a journal holds.

use crate::fs::Mode;
use crate::state::{ContentHash, Mechanism, Portable, Prior};
use vstd::prelude::*;

verus! {

/// What a session is for.
///
/// Reporting only: recovery behaves identically for both, and reads only the
/// [`Intent`] records.
#[derive(Clone, Copy, Debug, PartialEq, Eq, Structural)]
pub enum SessionKind {
    /// `apply`, `sync`, `init`, `add`: bx writing what the config declares.
    Apply,
    /// `rm`: bx putting back what it displaced.
    Restore,
}

impl SessionKind {
    /// The session as it is named to the user.
    pub fn text(self) -> (r: &'static str)
        ensures
            r@ == match self {
                SessionKind::Apply => "apply"@,
                SessionKind::Restore => "restore"@,
            },
    {
        match self {
            SessionKind::Apply => "apply",
            SessionKind::Restore => "restore",
        }
    }
}

/// One frame of the journal.
#[derive(Clone, Debug, PartialEq, Eq)]
pub enum Record {
    /// The session opened.
    Begin(Begin),
    /// A write is about to be published.
    Intent(Intent),
    /// A write was published.
    Done(Done),
    /// Every write in the session was published. Only the bookkeeping may be
    /// outstanding.
    End(End),
}

/// The session header, always the first frame.
#[derive(Clone, Debug, PartialEq, Eq)]
pub struct Begin {
    /// What the session is for.
    pub kind: SessionKind,
    /// The home directory the session's paths were rendered against.
    pub home: String,
    /// What the session may touch. Reporting only, but every entry has to be
    /// portable against the home, or the journal is not believed.
    pub scope: Vec<Portable>,
}

/// What the destination holds after a write.
///
/// Two named states rather than an `Option`: "there is no file" and "there is
/// an empty file" need opposite undos.
#[derive(Clone, Debug, PartialEq, Eq)]
pub enum Written {
    /// No file. A removal.
    Absent,
    /// These bytes at this mode.
    Present {
        /// The digest of the bytes the write leaves behind.
        digest: ContentHash,
        /// The mode it leaves them at.
        mode: Mode,
    },
}

/// One write, recorded durably before it is made.
#[derive(Clone, Debug, PartialEq, Eq)]
pub struct Intent {
    /// The target, home-relative. The ledger's key.
    pub target: Portable,
    /// The destination, rendered absolute, so recovery needs no configuration.
    pub dest: String,
    /// The staging path that was chosen, or `None` for a removal.
    pub temp: Option<String>,
    /// What the destination held before, and where those bytes now live.
    pub before: Prior,
    /// What the write leaves there.
    pub after: Written,
    /// Parent directories this write invented, deepest first.
    pub created_dirs: Vec<String>,
    /// How bx attached to the target, or `None` when the session is releasing
    /// it.
    pub mechanism: Option<Mechanism>,
    /// What the saved ledger said bx last wrote to this target when the intent
    /// was made, or `None` when bx did not own it.
    pub ledger_written: Option<ContentHash>,
}

impl Intent {
    /// Whether this write creates a destination that did not exist.
    pub fn creates(&self) -> (r: bool)
        ensures
            r == (self.before is Absent),
    {
        matches!(self.before, Prior::Absent)
    }
}

/// A write that was published.
#[derive(Clone, Debug, PartialEq, Eq)]
pub struct Done {
    /// Which one.
    pub target: Portable,
}

/// The session's writes all landed.
#[derive(Clone, Debug, PartialEq, Eq)]
pub struct End {
    /// How many.
    pub written: usize,
}

} // verus!
