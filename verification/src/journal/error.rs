//! Everything that can go wrong journalling a write.

use crate::fs::Kind;
use crate::state::Portable;
use crate::text::{decimal, decimal_of};
use vstd::prelude::*;

verus! {

/// Everything that can go wrong journalling a write.
#[derive(Debug, PartialEq, Eq)]
pub enum Error {
    /// A read, write, `fsync` or `unlink` of the journal itself failed.
    Io {
        /// The path the failure is about.
        path: String,
        /// The underlying failure, in words.
        source: String,
    },
    /// A record could not be encoded.
    Encode {
        /// The underlying failure, in words.
        source: String,
    },
    /// A record encoded to more than a frame may hold.
    FrameTooLarge {
        /// How big it was.
        len: usize,
    },
    /// The journal was written in a newer format than this build understands.
    ///
    /// Not damage: the likeliest cause is an older bx run after a newer one was
    /// interrupted. Setting it aside would discard the rollback only the newer
    /// bx can make, so it is refused wherever it is read.
    FutureVersion {
        /// The journal.
        path: String,
        /// The format byte on disk.
        found: u8,
        /// The newest this build understands.
        supported: u8,
    },
    /// A journal bx cannot believe could not be moved aside.
    ///
    /// Refused rather than read as absent: a session opened over it creates its
    /// own journal by renaming over these bytes.
    CannotSetAside {
        /// The journal.
        path: String,
        /// Why it could not be moved, in words.
        source: String,
    },
    /// What stands at the journal's path is not a regular file.
    NotAJournal {
        /// The journal's path.
        path: String,
        /// What is there instead.
        kind: Kind,
    },
    /// A session was asked to start while an unresolved interruption stands.
    InProgress {
        /// The journal that stands.
        path: String,
    },
    /// A write in this session already failed, so the session may neither
    /// write again nor finish.
    Poisoned {
        /// The journal that records the session.
        path: String,
    },
    /// A request's destination is not where its target renders against the
    /// session's home.
    Misplaced {
        /// The target the request named.
        target: Portable,
        /// The destination it asked for.
        dest: String,
        /// Where the target renders.
        rendered: String,
    },
    /// A session was asked to write a target it has already written.
    Repeated {
        /// The target written twice.
        target: Portable,
    },
    /// A removal named, as a directory bx created for its target, a path that
    /// is not a parent of the target's destination below the home.
    StrayCreatedDir {
        /// The target the removal named.
        target: Portable,
        /// The directory it named.
        dir: String,
    },
    /// A path is spelled absolutely under the home, where its `~` spelling is
    /// its key.
    ForeignRecord {
        /// The home.
        home: String,
        /// The path as it was spelled.
        stored: String,
    },
    /// The state directory failed, in words.
    State {
        /// What failed.
        detail: String,
    },
    /// A destination could not be observed or written, in words.
    Write {
        /// What failed.
        detail: String,
    },
    /// A destination is no longer what was observed when the write was planned.
    Changed {
        /// The destination.
        path: String,
        /// What moved.
        detail: String,
    },
    /// A destination of a write is a link, which bx does not write through.
    Symlink {
        /// The destination.
        path: String,
    },
    /// A file bx shares through a region was changed since bx last wrote it, so
    /// writing it would take the change for bx's own.
    PriorConflict {
        /// The target.
        target: Portable,
    },
    /// What stands at a destination is not a file bx may replace or remove.
    NotAFile {
        /// The destination.
        path: String,
        /// What is there.
        kind: Kind,
    },
    /// What stands where a directory is to be made or set is something else.
    NotADir {
        /// The destination.
        path: String,
        /// What is there instead.
        kind: Kind,
    },
    /// A step was reported that the session had not asked for.
    OutOfStep,
}

/// What stands at a path, in words.
pub open spec fn kind_words(kind: Kind) -> Seq<char> {
    match kind {
        Kind::Absent => "nothing"@,
        Kind::File => "a file"@,
        Kind::Dir => "a directory"@,
        Kind::Other(words) => words@,
    }
}

impl Kind {
    /// What stands at a path, in words.
    pub fn text(&self) -> (r: String)
        ensures
            r@ == kind_words(*self),
    {
        match self {
            Kind::Absent => "nothing".to_owned(),
            Kind::File => "a file".to_owned(),
            Kind::Dir => "a directory".to_owned(),
            Kind::Other(words) => words.clone(),
        }
    }
}

/// An error as it is shown.
pub open spec fn error_text(error: Error) -> Seq<char> {
    match error {
        Error::Io { path, source } => "journalling to "@ + path@ + ": "@ + source@,
        Error::Encode { source } => "encoding a journal record: "@ + source@,
        Error::FrameTooLarge { len } => "a journal record of "@ + decimal(len as nat)
            + " bytes exceeds the 16777216-byte frame limit"@,
        Error::FutureVersion { path, found, supported } => path@
            + " was written by a newer bx: it is journal format "@ + decimal(found as nat)
            + ", and this bx understands up to "@ + decimal(supported as nat)
            + ". Nothing was rolled back, set aside or changed; run a bx at least as new as the one that wrote it"@,
        Error::CannotSetAside { path, source } => "the write-ahead journal "@ + path@
            + " cannot be read and could not be set aside ("@ + source@
            + "); it was left in place, and bx will not write until it can be moved"@,
        Error::NotAJournal { path, kind } => "the write-ahead journal "@ + path@ + " is "@
            + kind_words(kind)
            + "; bx reads a journal only from a regular file, so it did not open it, and will not write until it is moved"@,
        Error::InProgress { path } => "an interrupted bx session is still recorded in "@ + path@
            + "; it must be recovered before anything else is written"@,
        Error::Poisoned { path } =>
            "an earlier write in this bx session failed; the session cannot go on, and "@ + path@
            + " is left for recovery to roll back"@,
        Error::Misplaced { target, dest, rendered } => "bx will not write "@ + dest@ + " for "@
            + target@ + ", which renders to "@ + rendered@,
        Error::Repeated { target } => target@
            + " was already written in this bx session, and a session writes a target once"@,
        Error::StrayCreatedDir { target, dir } => "bx will not remove "@ + dir@ + " for "@ + target@
            + ": it is not a parent directory of the target below the home"@,
        Error::ForeignRecord { home, stored } => stored@ + " is spelled absolutely under the home "@
            + home@,
        Error::State { detail } => detail@,
        Error::Write { detail } => detail@,
        Error::Changed { path, detail } => path@ + " changed since it was planned: "@ + detail@,
        Error::Symlink { path } => path@ + " is a symlink, and bx does not write through one"@,
        Error::PriorConflict { target } => target@
            + " was changed since bx last wrote its region; bx left it as it is"@,
        Error::NotAFile { path, kind } => path@ + " is "@ + kind_words(kind)
            + ", not a file bx may replace or remove"@,
        Error::NotADir { path, kind } => path@ + " is "@ + kind_words(kind)
            + ", not a directory bx may make or set"@,
        Error::OutOfStep => "a step was reported that the session had not asked for"@,
    }
}

impl Error {
    /// The error as it is shown.
    pub fn text(&self) -> (r: String)
        ensures
            r@ == error_text(*self),
    {
        match self {
            Error::Io { path, source } => "journalling to ".to_owned().concat(path.as_str()).concat(
                ": ",
            ).concat(source.as_str()),
            Error::Encode { source } => "encoding a journal record: ".to_owned().concat(
                source.as_str(),
            ),
            Error::FrameTooLarge { len } => "a journal record of ".to_owned().concat(
                decimal_of(*len).as_str(),
            ).concat(" bytes exceeds the 16777216-byte frame limit"),
            Error::FutureVersion { path, found, supported } => path.clone().concat(
                " was written by a newer bx: it is journal format ",
            ).concat(decimal_of(*found as usize).as_str()).concat(
                ", and this bx understands up to ",
            ).concat(decimal_of(*supported as usize).as_str()).concat(
                ". Nothing was rolled back, set aside or changed; run a bx at least as new as the one that wrote it",
            ),
            Error::CannotSetAside { path, source } => "the write-ahead journal ".to_owned().concat(
                path.as_str(),
            ).concat(" cannot be read and could not be set aside (").concat(
                source.as_str(),
            ).concat("); it was left in place, and bx will not write until it can be moved"),
            Error::NotAJournal { path, kind } => "the write-ahead journal ".to_owned().concat(
                path.as_str(),
            ).concat(" is ").concat(kind.text().as_str()).concat(
                "; bx reads a journal only from a regular file, so it did not open it, and will not write until it is moved",
            ),
            Error::InProgress {
                path,
            } => "an interrupted bx session is still recorded in ".to_owned().concat(
                path.as_str(),
            ).concat("; it must be recovered before anything else is written"),
            Error::Poisoned {
                path,
            } =>
            "an earlier write in this bx session failed; the session cannot go on, and ".to_owned().concat(
            path.as_str()).concat(" is left for recovery to roll back"),
            Error::Misplaced { target, dest, rendered } => "bx will not write ".to_owned().concat(
                dest.as_str(),
            ).concat(" for ").concat(target.text.as_str()).concat(", which renders to ").concat(
                rendered.as_str(),
            ),
            Error::Repeated { target } => target.text.clone().concat(
                " was already written in this bx session, and a session writes a target once",
            ),
            Error::StrayCreatedDir { target, dir } => "bx will not remove ".to_owned().concat(
                dir.as_str(),
            ).concat(" for ").concat(target.text.as_str()).concat(
                ": it is not a parent directory of the target below the home",
            ),
            Error::ForeignRecord { home, stored } => stored.clone().concat(
                " is spelled absolutely under the home ",
            ).concat(home.as_str()),
            Error::State { detail } => detail.clone(),
            Error::Write { detail } => detail.clone(),
            Error::Changed { path, detail } => path.clone().concat(
                " changed since it was planned: ",
            ).concat(detail.as_str()),
            Error::Symlink { path } => path.clone().concat(
                " is a symlink, and bx does not write through one",
            ),
            Error::PriorConflict { target } => target.text.clone().concat(
                " was changed since bx last wrote its region; bx left it as it is",
            ),
            Error::NotAFile { path, kind } => path.clone().concat(" is ").concat(
                kind.text().as_str(),
            ).concat(", not a file bx may replace or remove"),
            Error::NotADir { path, kind } => path.clone().concat(" is ").concat(
                kind.text().as_str(),
            ).concat(", not a directory bx may make or set"),
            Error::OutOfStep => "a step was reported that the session had not asked for".to_owned(),
        }
    }
}

/// What stands at a path is named for what it is.
pub proof fn a_kind_is_named_for_what_it_is(kind: Kind)
    ensures
        kind is Absent ==> kind_words(kind) == "nothing"@,
        kind is File ==> kind_words(kind) == "a file"@,
        kind is Dir ==> kind_words(kind) == "a directory"@,
        kind matches Kind::Other(words) ==> kind_words(kind) == words@,
{
}

/// An error of the journal names the path it is about and what came of it.
pub proof fn an_error_of_the_journal_names_its_path(error: Error)
    ensures
        error matches Error::Io { path, source } ==> error_text(error) == "journalling to "@ + path@
            + ": "@ + source@,
        error matches Error::Encode { source } ==> error_text(error)
            == "encoding a journal record: "@ + source@,
        error matches Error::FrameTooLarge { len } ==> error_text(error) == "a journal record of "@
            + decimal(len as nat) + " bytes exceeds the 16777216-byte frame limit"@,
        error matches Error::FutureVersion { path, found, supported } ==> error_text(error) == path@
            + " was written by a newer bx: it is journal format "@ + decimal(found as nat)
            + ", and this bx understands up to "@ + decimal(supported as nat)
            + ". Nothing was rolled back, set aside or changed; run a bx at least as new as the one that wrote it"@,
        error matches Error::CannotSetAside { path, source } ==> error_text(error)
            == "the write-ahead journal "@ + path@ + " cannot be read and could not be set aside ("@
            + source@
            + "); it was left in place, and bx will not write until it can be moved"@,
        error matches Error::NotAJournal { path, kind } ==> error_text(error)
            == "the write-ahead journal "@ + path@ + " is "@ + kind_words(kind)
            + "; bx reads a journal only from a regular file, so it did not open it, and will not write until it is moved"@,
        error matches Error::InProgress { path } ==> error_text(error)
            == "an interrupted bx session is still recorded in "@ + path@
            + "; it must be recovered before anything else is written"@,
        error matches Error::Poisoned { path } ==> error_text(error)
            == "an earlier write in this bx session failed; the session cannot go on, and "@ + path@
            + " is left for recovery to roll back"@,
{
}

/// An error of a write names its target or its destination, and why.
pub proof fn an_error_of_a_write_names_its_target(error: Error)
    ensures
        error matches Error::Misplaced { target, dest, rendered } ==> error_text(error)
            == "bx will not write "@ + dest@ + " for "@ + target@ + ", which renders to "@
            + rendered@,
        error matches Error::Repeated { target } ==> error_text(error) == target@
            + " was already written in this bx session, and a session writes a target once"@,
        error matches Error::StrayCreatedDir { target, dir } ==> error_text(error)
            == "bx will not remove "@ + dir@ + " for "@ + target@
            + ": it is not a parent directory of the target below the home"@,
        error matches Error::ForeignRecord { home, stored } ==> error_text(error) == stored@
            + " is spelled absolutely under the home "@ + home@,
        error matches Error::Changed { path, detail } ==> error_text(error) == path@
            + " changed since it was planned: "@ + detail@,
        error matches Error::Symlink { path } ==> error_text(error) == path@
            + " is a symlink, and bx does not write through one"@,
        error matches Error::PriorConflict { target } ==> error_text(error) == target@
            + " was changed since bx last wrote its region; bx left it as it is"@,
        error matches Error::NotAFile { path, kind } ==> error_text(error) == path@ + " is "@
            + kind_words(kind) + ", not a file bx may replace or remove"@,
        error matches Error::NotADir { path, kind } ==> error_text(error) == path@ + " is "@
            + kind_words(kind) + ", not a directory bx may make or set"@,
        error matches Error::State { detail } ==> error_text(error) == detail@,
        error matches Error::Write { detail } ==> error_text(error) == detail@,
        error is OutOfStep ==> error_text(error)
            == "a step was reported that the session had not asked for"@,
{
}

} // verus!
