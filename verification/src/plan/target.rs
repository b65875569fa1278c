//! What a configuration declares, with what the program read for it.

use crate::fs::Mode;
use crate::plan::rows::Origin;
use crate::state::Portable;
use vstd::prelude::*;

verus! {

/// How bx is to attach to a target.
#[derive(Debug, PartialEq, Eq)]
pub enum Attach {
    /// By owning the whole file.
    Own,
    /// By owning the one region delimited with this comment character.
    Region { comment: char },
    /// By owning one line.
    Include { line: String },
}

/// Which way a target's content moves.
#[derive(Clone, Copy, Debug, PartialEq, Eq, Structural)]
pub enum Direction {
    /// From the repo to the machine.
    Apply,
    /// From the machine to the repo.
    Track,
}

/// How a target's content reads.
#[derive(Clone, Copy, Debug, PartialEq, Eq, Structural)]
pub enum Format {
    /// As bytes.
    Opaque,
    /// As an `environment.d` file.
    EnvD,
    /// As JSON with comments, of which bx owns some keys.
    Jsonc,
}

/// The syntax of an environment fragment.
#[derive(Clone, Copy, Debug, PartialEq, Eq, Structural)]
pub enum Syntax {
    Zsh,
    EnvironmentD,
}

/// An assignment bx may not write.
#[derive(Debug, PartialEq, Eq)]
pub struct Violation {
    /// The line it is on, counted from the top of what was scanned.
    pub line: usize,
    /// The variable.
    pub name: String,
    /// Why bx may not write it.
    pub reason: String,
}

/// What a generated body is.
#[derive(Debug, PartialEq, Eq)]
pub enum Gen {
    /// An environment fragment.
    Env(Syntax),
    /// The interactive file: its `env` phase as it was rendered, and the history
    /// file it names for zsh.
    Interactive { env: String, history: Option<Portable> },
    /// The line a region sources a fragment with.
    Source,
}

/// A generated body, as it was rendered and judged on this machine.
#[derive(Debug, PartialEq, Eq)]
pub struct Generated {
    /// What it is.
    pub what: Gen,
    /// What of its content is held back, if anything is.
    pub note: Option<String>,
    /// Its content.
    pub content: String,
    /// What the guard found in the fragment it is judged by.
    pub violations: Vec<Violation>,
    /// Why the guard refuses the history file it names, if it does.
    pub refusal: Option<String>,
}

/// A file of the config repo that could not be read.
#[derive(Debug, PartialEq, Eq)]
pub struct Unread {
    /// The file.
    pub path: String,
    /// Why.
    pub source: String,
}

/// A secret, as far as it could be opened without asking.
#[derive(Debug, PartialEq, Eq)]
pub enum Opened {
    /// Its ciphertext could not be read.
    Unread(Unread),
    /// It could not be decrypted, and the fix.
    Refused(String),
    /// Its plaintext.
    Plain(Vec<u8>),
}

/// What a target holds.
#[derive(Debug, PartialEq, Eq)]
pub enum Body {
    /// Text the configuration spells out.
    Inline(String),
    /// A file of the config repo.
    File(Result<Vec<u8>, Unread>),
    /// A secret of the config repo.
    Secret(Opened),
    /// Text bx generates.
    Generated(Generated),
    /// Nothing: the target is a directory.
    Dir,
}

/// A target whose values are all answered.
#[derive(Debug, PartialEq, Eq)]
pub struct Target {
    /// Where it goes.
    pub path: Portable,
    /// What it holds.
    pub body: Body,
    /// The mode it declares, if it declares one.
    pub mode: Option<Mode>,
    /// How bx attaches to it.
    pub attach: Attach,
    /// Which way its content moves.
    pub direction: Direction,
    /// How its content reads.
    pub format: Format,
    /// Where it was declared.
    pub origin: Origin,
}

/// A target some value holds back.
#[derive(Debug, PartialEq, Eq)]
pub struct Held {
    /// The target, as it is spelled before substitution.
    pub key: String,
    /// Where it was declared.
    pub origin: Origin,
    /// What to do about it.
    pub hint: String,
}

/// What became of a declared target.
#[derive(Debug, PartialEq, Eq)]
pub enum Resolution {
    /// Every value it needs is answered.
    Ready(Target),
    /// One is not.
    Blocked(Held),
}

} // verus!
