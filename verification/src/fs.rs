//! What stands on disk, as plain values.

use crate::text::{chars_of, numeral, numeral_of, push_char};
use vstd::prelude::*;

verus! {

/// Permission bits.
#[derive(Clone, Copy, Debug, PartialEq, Eq, Structural)]
pub struct Mode {
    pub bits: u32,
}

/// Zeros, as many as `text` lacks to be four characters wide.
pub open spec fn zeros(text: Seq<char>) -> Seq<char> {
    if text.len() >= 4 {
        Seq::empty()
    } else {
        Seq::new((4 - text.len()) as nat, |i: int| '0')
    }
}

impl Mode {
    /// The mode as it is shown: octal, four digits wide.
    pub open spec fn shown(self) -> Seq<char> {
        zeros(numeral(self.bits as nat, 8)) + numeral(self.bits as nat, 8)
    }

    /// The mode with these bits.
    pub fn from_bits(bits: u32) -> (r: Mode)
        ensures
            r.bits == bits,
    {
        Mode { bits }
    }

    /// What a file is written at where nothing else is declared: `0644`.
    pub fn default_file() -> (r: Mode)
        ensures
            r.bits == 0o644,
    {
        Mode { bits: 0o644 }
    }

    /// A file its owner alone may read: `0600`.
    pub fn private_file() -> (r: Mode)
        ensures
            r.bits == 0o600,
    {
        Mode { bits: 0o600 }
    }

    /// What a directory is made at where nothing else is declared: `0755`.
    pub fn default_dir() -> (r: Mode)
        ensures
            r.bits == 0o755,
    {
        Mode { bits: 0o755 }
    }

    /// A directory its owner alone may use: `0700`.
    pub fn private_dir() -> (r: Mode)
        ensures
            r.bits == 0o700,
    {
        Mode { bits: 0o700 }
    }

    /// The mode a target is left at: the one it declares, or the default for
    /// what it is.
    pub open spec fn resolved(declared: Option<Mode>, dir: bool) -> Mode {
        match declared {
            Some(mode) => mode,
            None => if dir {
                Mode { bits: 0o755 }
            } else {
                Mode { bits: 0o644 }
            },
        }
    }

    /// The mode a target is left at: the one it declares, or the default for
    /// what it is.
    pub fn resolve(declared: Option<Mode>, dir: bool) -> (r: Mode)
        ensures
            r == Mode::resolved(declared, dir),
    {
        match declared {
            Some(mode) => mode,
            None => if dir {
                Mode::default_dir()
            } else {
                Mode::default_file()
            },
        }
    }

    /// Whether a directory at this mode lets group or others read or write where
    /// a file at `file` does not.
    pub open spec fn wider_than(self, file: Mode) -> bool {
        self.bits & 0o066 & !file.bits != 0
    }

    /// Whether a directory at this mode lets group or others read or write where
    /// a file at `file` does not.
    pub fn is_wider_than(self, file: Mode) -> (r: bool)
        ensures
            r == self.wider_than(file),
    {
        self.bits & 0o066 & !file.bits != 0
    }

    /// The mode as it is shown: octal, four digits wide.
    pub fn text(self) -> (r: String)
        ensures
            r@ == self.shown(),
    {
        let digits = numeral_of(self.bits as u128, 8);
        let width = chars_of(digits.as_str()).len();
        let mut out = String::new();
        let mut i: usize = width;
        while i < 4
            invariant
                width == numeral(self.bits as nat, 8).len(),
                i <= 4 || i == width,
                width <= i,
                out@.len() == i - width,
                forall|k: int| 0 <= k < out@.len() ==> out@[k] == '0',
            decreases 4 - i,
        {
            push_char(&mut out, '0');
            i = i + 1;
        }
        assert(out@ =~= zeros(numeral(self.bits as nat, 8)));
        out.append(digits.as_str());
        out
    }
}

/// What stands at a path.
#[derive(Debug, PartialEq, Eq)]
pub enum Kind {
    /// Nothing.
    Absent,
    /// A regular file.
    File,
    /// A directory.
    Dir,
    /// Anything else, in the words it is shown by: `a symlink`.
    Other(String),
}

impl Clone for Kind {
    fn clone(&self) -> (r: Kind)
        ensures
            r == *self,
    {
        match self {
            Kind::Absent => Kind::Absent,
            Kind::File => Kind::File,
            Kind::Dir => Kind::Dir,
            Kind::Other(words) => Kind::Other(words.clone()),
        }
    }
}

/// Which content a file held when it was looked at: which file it was, and
/// when it last changed.
#[derive(Clone, Copy, Debug, PartialEq, Eq, Structural)]
pub struct Stamp {
    pub file: u128,
    pub changed: i128,
}

/// What stands where a destination's directory goes.
#[derive(Debug, PartialEq, Eq)]
pub enum ParentState {
    /// A directory a file can be written into, and its mode.
    Present(Mode),
    /// Nothing, and the mode it would be made at.
    Absent(Mode),
    /// Something that cannot hold a file, and why.
    Unusable(String),
}

/// The directory a destination is in.
#[derive(Debug, PartialEq, Eq)]
pub struct Parent {
    pub path: String,
    pub state: ParentState,
}

/// What was observed at a destination.
#[derive(Debug, PartialEq, Eq)]
pub struct Observed {
    /// Where it was looked.
    pub path: String,
    /// What is there.
    pub kind: Kind,
    /// Its mode, where something is there.
    pub mode: Option<Mode>,
    /// Its bytes, where it is a file.
    pub bytes: Option<Vec<u8>>,
    /// The directory it is in.
    pub parent: Option<Parent>,
    /// Which content it held.
    pub stamp: Option<Stamp>,
}

impl Clone for ParentState {
    fn clone(&self) -> (r: ParentState)
        ensures
            r == *self,
    {
        match self {
            ParentState::Present(mode) => ParentState::Present(*mode),
            ParentState::Absent(mode) => ParentState::Absent(*mode),
            ParentState::Unusable(why) => ParentState::Unusable(why.clone()),
        }
    }
}

impl Clone for Parent {
    fn clone(&self) -> (r: Parent)
        ensures
            r == *self,
    {
        Parent { path: self.path.clone(), state: self.state.clone() }
    }
}

/// The bytes an observation holds.
pub open spec fn content(observed: Observed) -> Option<Seq<u8>> {
    match observed.bytes {
        Some(bytes) => Some(bytes@),
        None => None,
    }
}

/// Whether an observation of something has its mode.
pub open spec fn has_mode(observed: Observed) -> bool {
    observed.kind !is Absent ==> observed.mode is Some
}

/// Whether two observations say the same.
pub open spec fn same_observed(a: Observed, b: Observed) -> bool {
    &&& a.path == b.path
    &&& a.kind == b.kind
    &&& a.mode == b.mode
    &&& content(a) == content(b)
    &&& a.parent == b.parent
    &&& a.stamp == b.stamp
}

impl Clone for Observed {
    fn clone(&self) -> (r: Observed)
        ensures
            same_observed(r, *self),
    {
        Observed {
            path: self.path.clone(),
            kind: self.kind.clone(),
            mode: self.mode,
            bytes: match &self.bytes {
                Some(bytes) => Some(vstd::slice::slice_to_vec(bytes.as_slice())),
                None => None,
            },
            parent: match &self.parent {
                Some(parent) => Some(parent.clone()),
                None => None,
            },
            stamp: self.stamp,
        }
    }
}

/// A mode is shown as four octal digits, the highest first.
pub proof fn a_mode_is_shown_in_four_octal_digits(mode: Mode)
    requires
        mode.bits < 0o10000,
    ensures
        mode.shown().len() == 4,
        mode.shown()[0] as u32 == 48 + mode.bits / 512,
        mode.shown()[1] as u32 == 48 + mode.bits / 64 % 8,
        mode.shown()[2] as u32 == 48 + mode.bits / 8 % 8,
        mode.shown()[3] as u32 == 48 + mode.bits % 8,
{
    let n = mode.bits as nat;
    reveal_with_fuel(numeral, 5);
    assert(n / 8 / 8 == n / 64);
    assert(n / 64 / 8 == n / 512);
    assert(n / 512 < 8);
    if n < 8 {
        assert(numeral(n, 8).len() == 1);
    } else if n < 64 {
        assert(numeral(n / 8, 8).len() == 1);
        assert(numeral(n, 8).len() == 2);
    } else if n < 512 {
        assert(numeral(n / 64, 8).len() == 1);
        assert(numeral(n / 8, 8).len() == 2);
        assert(numeral(n, 8).len() == 3);
    } else {
        assert(numeral(n / 512, 8).len() == 1);
        assert(numeral(n / 64, 8).len() == 2);
        assert(numeral(n / 8, 8).len() == 3);
        assert(numeral(n, 8).len() == 4);
    }
}

/// A directory is wider than a file exactly where it lets the group or others
/// read or write and the file does not.
pub proof fn a_wider_directory_grants_what_its_file_does_not(dir: Mode, file: Mode)
    ensures
        dir.wider_than(file) <==> ({
            ||| dir.bits & 0o040 != 0 && file.bits & 0o040 == 0
            ||| dir.bits & 0o020 != 0 && file.bits & 0o020 == 0
            ||| dir.bits & 0o004 != 0 && file.bits & 0o004 == 0
            ||| dir.bits & 0o002 != 0 && file.bits & 0o002 == 0
        }),
{
    let d = dir.bits;
    let f = file.bits;
    assert((d & 0o066 & !f != 0) <==> ((d & 0o040 != 0 && f & 0o040 == 0) || (d & 0o020 != 0 && f
        & 0o020 == 0) || (d & 0o004 != 0 && f & 0o004 == 0) || (d & 0o002 != 0 && f & 0o002 == 0)))
        by (bit_vector);
}

/// A declared mode is the one a target is left at, whatever it is; without one a
/// file is readable by all and a directory usable by all, and only their owner
/// writes them.
pub proof fn a_declared_mode_is_kept(mode: Mode, dir: bool)
    ensures
        Mode::resolved(Some(mode), dir) == mode,
        Mode::resolved(None, false).bits == 0o644,
        Mode::resolved(None, true).bits == 0o755,
{
}

/// A mode of more than four octal digits is shown with all of them, and nothing
/// before them.
pub proof fn a_wider_mode_is_shown_whole(mode: Mode)
    requires
        mode.bits >= 0o10000,
    ensures
        mode.shown() == numeral(mode.bits as nat, 8),
{
    let n = mode.bits as nat;
    reveal_with_fuel(numeral, 5);
    assert(n / 8 / 8 / 8 >= 8);
    assert(numeral(n / 8 / 8 / 8, 8).len() >= 1);
    assert(numeral(n, 8).len() >= 4);
    assert(mode.shown() =~= numeral(n, 8));
}

/// Two observations say the same if and only if they are of one path and say the
/// same of what is there: its kind, its mode, its bytes, its directory and its
/// stamp.
pub proof fn only_equal_observations_say_the_same(a: Observed, b: Observed)
    ensures
        same_observed(a, b) <==> a.path == b.path && a.kind == b.kind && a.mode == b.mode
            && a.parent == b.parent && a.stamp == b.stamp && (a.bytes is Some <==> b.bytes is Some)
            && (a.bytes is Some ==> a.bytes->0@ == b.bytes->0@),
{
}

} // verus!
