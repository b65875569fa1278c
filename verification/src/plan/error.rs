//! Everything that can stop a run.

use crate::journal::error::{error_text, Error as JournalError};
use crate::plan::rows::Origin;
use crate::text::{decimal, decimal_of};
use vstd::prelude::*;

verus! {

/// Everything that can stop a run.
#[derive(Debug, PartialEq, Eq)]
pub enum Error {
    /// `$HOME` is not usable, and why.
    Home(String),
    /// `$HOME` climbs out of a directory and back in, so bx cannot name the
    /// home exactly.
    HomeParentComponent(String),
    /// There is no config repo.
    RepoMissing(String),
    /// The configuration could not be loaded, merged or resolved, and why.
    Config(String),
    /// A target's `file` body could not be read from the config repo.
    Body {
        /// Where the target was declared.
        origin: Origin,
        /// The file that could not be read.
        path: String,
        /// Why.
        source: String,
    },
    /// The state directory failed, including another bx holding it, and how.
    State(String),
    /// A state file bx reads is something other than a regular file (a FIFO, a
    /// device, a link), which a read could wait on forever or never finish.
    NotARegularFile {
        /// The state file.
        path: String,
    },
    /// An interrupted session could not be inspected or resolved, and why.
    Recover(String),
    /// The session refused or failed a write.
    Journal(JournalError),
    /// A destination could not be observed, and why.
    Fs(String),
    /// `apply` has something to write, was not given `--yes`, and has no
    /// terminal to ask on. The plan has been shown; nothing was written.
    NeedsConfirmation,
    /// The confirmation prompt failed or was interrupted, and how.
    Prompt(String),
    /// The rendering could not be written to its output, and why.
    Output(String),
}

/// Everything that can go wrong recovering an interrupted session.
#[derive(Debug, PartialEq, Eq)]
pub enum RecoverError {
    /// The state directory failed, and how.
    State(String),
    /// The journal refused or failed.
    Journal(JournalError),
    /// Some interrupted writes cannot be put back, so nothing was.
    Blocked {
        /// The rows of those writes.
        conflicts: Vec<usize>,
    },
}

/// Where something was declared, as a message names it.
pub open spec fn origin_text(origin: Origin) -> Seq<char> {
    origin.file@ + ":"@ + decimal(origin.line as nat)
}

/// What is said of an error.
pub open spec fn words(error: Error) -> Seq<char> {
    match error {
        Error::Home(why) => why@,
        Error::HomeParentComponent(home) => "HOME has a `..` component: "@ + home@
            + "; bx renders every path against HOME and will not guess which directory it names. Set HOME without `..`"@,
        Error::RepoMissing(repo) => "no bx config repo at "@ + repo@
            + "; run `bx init` to create one"@,
        Error::Config(why) => why@,
        Error::Body { origin, path, source } => origin_text(origin) + ": reading the body "@ + path@
            + ": "@ + source@,
        Error::State(why) => why@,
        Error::NotARegularFile { path } => path@
            + " is not a regular file, so bx will not read it; move it out of the way and run bx again"@,
        Error::Recover(why) => why@,
        Error::Journal(error) => error_text(error),
        Error::Fs(why) => why@,
        Error::NeedsConfirmation =>
            "bx apply writes only what was confirmed, and there is no terminal to ask on; nothing was written. Review the plan above and rerun with --yes"@,
        Error::Prompt(why) => "asking for confirmation: "@ + why@,
        Error::Output(why) => "writing the plan: "@ + why@,
    }
}

/// Whether `r` is what stops a run when the journal refuses or fails with
/// `error`.
pub open spec fn stops_with(r: Error, error: JournalError) -> bool {
    match error {
        JournalError::ForeignRecord { .. }
        | JournalError::PriorConflict { .. }
        | JournalError::State { .. } => r matches Error::State(why) && why@ == error_text(error),
        _ => r == Error::Journal(error),
    }
}

impl Error {
    /// What stops a run when the journal refuses or fails: a failure of the
    /// state directory, a record it refuses or a conflict with one it holds is
    /// one error wherever it comes from.
    pub fn of_journal(error: JournalError) -> (r: Error)
        ensures
            stops_with(r, error),
    {
        match error {
            JournalError::ForeignRecord { .. }
            | JournalError::PriorConflict { .. }
            | JournalError::State { .. } => Error::State(error.text()),
            _ => Error::Journal(error),
        }
    }

    /// What stops a run when a recovery fails: a failure of the state directory
    /// and one of the journal are the errors they are elsewhere.
    pub fn of_recover(error: RecoverError) -> (r: Error)
        ensures
            match error {
                RecoverError::State(why) => r == Error::State(why),
                RecoverError::Journal(error) => stops_with(r, error),
                RecoverError::Blocked { conflicts } => r matches Error::Recover(why) && why@
                    == decimal(conflicts@.len()) + " interrupted write(s) cannot be put back"@,
            },
    {
        match error {
            RecoverError::State(why) => Error::State(why),
            RecoverError::Journal(error) => Error::of_journal(error),
            RecoverError::Blocked { conflicts } => Error::Recover(
                decimal_of(conflicts.len()).concat(" interrupted write(s) cannot be put back"),
            ),
        }
    }

    /// What is said of the error.
    pub fn text(&self) -> (r: String)
        ensures
            r@ == words(*self),
    {
        match self {
            Error::Home(why) => why.clone(),
            Error::HomeParentComponent(home) => "HOME has a `..` component: ".to_owned().concat(
                home.as_str(),
            ).concat(
                "; bx renders every path against HOME and will not guess which directory it names. Set HOME without `..`",
            ),
            Error::RepoMissing(repo) => "no bx config repo at ".to_owned().concat(
                repo.as_str(),
            ).concat("; run `bx init` to create one"),
            Error::Config(why) => why.clone(),
            Error::Body { origin, path, source } => origin.file.clone().concat(":").concat(
                decimal_of(origin.line).as_str(),
            ).concat(": reading the body ").concat(path.as_str()).concat(": ").concat(
                source.as_str(),
            ),
            Error::State(why) => why.clone(),
            Error::NotARegularFile { path } => path.clone().concat(
                " is not a regular file, so bx will not read it; move it out of the way and run bx again",
            ),
            Error::Recover(why) => why.clone(),
            Error::Journal(error) => error.text(),
            Error::Fs(why) => why.clone(),
            Error::NeedsConfirmation => "bx apply writes only what was confirmed, and there is no terminal to ask on; nothing was written. Review the plan above and rerun with --yes".to_owned(),
            Error::Prompt(why) => "asking for confirmation: ".to_owned().concat(why.as_str()),
            Error::Output(why) => "writing the plan: ".to_owned().concat(why.as_str()),
        }
    }
}

/// An error of a run says what it is about: in its own words where it has them,
/// in the journal's where the journal stopped it, and otherwise with the path,
/// the place of the declaration and the cause.
pub proof fn an_error_says_what_it_is_about(error: Error)
    ensures
        error matches Error::Home(why) ==> words(error) == why@,
        error matches Error::Config(why) ==> words(error) == why@,
        error matches Error::State(why) ==> words(error) == why@,
        error matches Error::Recover(why) ==> words(error) == why@,
        error matches Error::Fs(why) ==> words(error) == why@,
        error matches Error::Journal(journal) ==> words(error) == error_text(journal),
        error matches Error::Prompt(why) ==> words(error) == "asking for confirmation: "@ + why@,
        error matches Error::Output(why) ==> words(error) == "writing the plan: "@ + why@,
        error matches Error::HomeParentComponent(home) ==> words(error)
            == "HOME has a `..` component: "@ + home@
            + "; bx renders every path against HOME and will not guess which directory it names. Set HOME without `..`"@,
        error matches Error::RepoMissing(repo) ==> words(error) == "no bx config repo at "@ + repo@
            + "; run `bx init` to create one"@,
        error matches Error::Body { origin, path, source } ==> words(error) == origin.file@ + ":"@
            + decimal(origin.line as nat) + ": reading the body "@ + path@ + ": "@ + source@,
        error matches Error::NotARegularFile { path } ==> words(error) == path@
            + " is not a regular file, so bx will not read it; move it out of the way and run bx again"@,
        error is NeedsConfirmation ==> words(error)
            == "bx apply writes only what was confirmed, and there is no terminal to ask on; nothing was written. Review the plan above and rerun with --yes"@,
{
}

/// A failure of the state directory, a record it refuses and a conflict with one
/// it holds stop a run as errors of the state, in the journal's words; every
/// other error of the journal stops it as itself.
pub proof fn a_failure_of_the_state_is_one_error(r: Error, error: JournalError)
    requires
        stops_with(r, error),
    ensures
        r is State <==> error is State || error is ForeignRecord || error is PriorConflict,
        r is State ==> r->State_0@ == error_text(error),
        r !is State ==> r == Error::Journal(error),
{
}

} // verus!
