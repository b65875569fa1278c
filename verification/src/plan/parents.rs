//! The directories a write goes through, and what they allow.

use crate::fs::{Mode, Observed, Parent, ParentState};
use crate::paths::{
    lemma_parent_is_shorter, parent, parent_of, path_is, path_within, portable, same_path,
    to_portable, within,
};
use crate::plan::notes::{list, listed};
use crate::text::{begins, begins_at, chars_of, opt_text, strings, text_of};
use vstd::prelude::*;

verus! {

/// The directories whose targets apply leaves at a declared mode (created, set
/// to it, or already there at it), each with that mode.
///
/// Every write `apply` makes to a directory runs before any write to a file,
/// so this is the mode a file beneath one will meet, whatever is on disk while
/// `plan` looks.
#[derive(Debug, PartialEq, Eq)]
pub struct Declared {
    pub dirs: Vec<(String, Mode)>,
}

/// Some declared directories, as texts.
pub open spec fn dir_texts(dirs: Seq<(String, Mode)>) -> Seq<(Seq<char>, Mode)> {
    Seq::new(dirs.len(), |i: int| (dirs[i].0@, dirs[i].1))
}

impl View for Declared {
    type V = Seq<(Seq<char>, Mode)>;

    open spec fn view(&self) -> Seq<(Seq<char>, Mode)> {
        dir_texts(self.dirs@)
    }
}

/// The mode a path is declared with: by the last declaration that names it.
pub open spec fn declared_mode(declared: Seq<(Seq<char>, Mode)>, path: Seq<char>) -> Option<Mode>
    decreases declared.len(),
{
    if declared.len() == 0 {
        None
    } else if same_path(declared.last().0, path) {
        Some(declared.last().1)
    } else {
        declared_mode(declared.drop_last(), path)
    }
}

/// Whether making a declared directory makes `dir`: it is the declared one, or
/// one on the way to it.
pub open spec fn makes(declared: Seq<(Seq<char>, Mode)>, dir: Seq<char>) -> bool {
    exists|i: int| 0 <= i < declared.len() && within((#[trigger] declared[i]).0, dir)
}

impl Declared {
    /// No directory at all.
    pub fn new() -> (r: Declared)
        ensures
            r@ == Seq::<(Seq<char>, Mode)>::empty(),
    {
        let r = Declared { dirs: Vec::new() };
        assert(r@ =~= Seq::<(Seq<char>, Mode)>::empty());
        r
    }

    /// Declares a directory, in the place of any earlier declaration of it.
    pub fn insert(&mut self, path: String, mode: Mode)
        ensures
            final(self)@ == old(self)@.push((path@, mode)),
            forall|other: Seq<char>|
                #[trigger] declared_mode(final(self)@, other) == if same_path(path@, other) {
                    Some(mode)
                } else {
                    declared_mode(old(self)@, other)
                },
    {
        let ghost before = self@;
        self.dirs.push((path, mode));
        assert(self@ =~= before.push((path@, mode)));
        assert(self@.drop_last() =~= before);
    }

    /// The mode a directory is declared with.
    pub fn get(&self, path: &str) -> (r: Option<Mode>)
        ensures
            r == declared_mode(self@, path@),
    {
        let mut i: usize = self.dirs.len();
        assert(self@.subrange(0, i as int) =~= self@);
        while i > 0
            invariant
                i <= self.dirs.len(),
                declared_mode(self@, path@) == declared_mode(
                    self@.subrange(0, i as int),
                    path@,
                ),
            decreases i,
        {
            let ghost some = self@.subrange(0, i as int);
            assert(some.drop_last() =~= self@.subrange(0, i - 1));
            assert(some.last() == (self.dirs@[i - 1].0@, self.dirs@[i - 1].1));
            if path_is(self.dirs[i - 1].0.as_str(), path) {
                return Some(self.dirs[i - 1].1);
            }
            i = i - 1;
        }
        None
    }

    /// Whether making a declared directory makes `dir`.
    pub fn makes_dir(&self, dir: &str) -> (r: bool)
        ensures
            r == makes(self@, dir@),
    {
        let mut i: usize = 0;
        while i < self.dirs.len()
            invariant
                i <= self.dirs.len(),
                forall|j: int| 0 <= j < i ==> !within((#[trigger] self@[j]).0, dir@),
            decreases self.dirs.len() - i,
        {
            assert(self@[i as int].0 == self.dirs@[i as int].0@);
            if path_within(self.dirs[i].0.as_str(), dir) {
                return true;
            }
            i = i + 1;
        }
        false
    }
}

/// What was found at a directory above a destination.
#[derive(Debug, PartialEq, Eq)]
pub struct Seen {
    /// The path.
    pub path: String,
    /// The mode of the directory it is, or leads to through links.
    pub dir: Option<Mode>,
    /// Whether nothing at all is there, not even a link.
    pub missing: bool,
}

/// The mode of the directory at `path`, if one was found there.
pub open spec fn dir_mode(seen: Seq<Seen>, path: Seq<char>) -> Option<Mode>
    decreases seen.len(),
{
    if seen.len() == 0 {
        None
    } else if same_path(seen[0].path@, path) && seen[0].dir is Some {
        seen[0].dir
    } else {
        dir_mode(seen.drop_first(), path)
    }
}

/// Whether nothing was found at `path`.
pub open spec fn is_missing(seen: Seq<Seen>, path: Seq<char>) -> bool {
    exists|i: int|
        0 <= i < seen.len() && same_path((#[trigger] seen[i]).path@, path) && seen[i].missing
}

fn dir_at(seen: &Vec<Seen>, path: &str) -> (r: Option<Mode>)
    ensures
        r == dir_mode(seen@, path@),
{
    let mut i: usize = 0;
    assert(seen@.subrange(0, seen@.len() as int) =~= seen@);
    while i < seen.len()
        invariant
            i <= seen.len(),
            dir_mode(seen@, path@) == dir_mode(
                seen@.subrange(i as int, seen@.len() as int),
                path@,
            ),
        decreases seen.len() - i,
    {
        let ghost rest = seen@.subrange(i as int, seen@.len() as int);
        assert(rest.drop_first() =~= seen@.subrange(i + 1, seen@.len() as int));
        assert(rest[0] == seen@[i as int]);
        if path_is(seen[i].path.as_str(), path) {
            if seen[i].dir.is_some() {
                return seen[i].dir;
            }
        }
        i = i + 1;
    }
    None
}

fn nothing_at(seen: &Vec<Seen>, path: &str) -> (r: bool)
    ensures
        r == is_missing(seen@, path@),
{
    let mut i: usize = 0;
    while i < seen.len()
        invariant
            i <= seen.len(),
            forall|j: int|
                0 <= j < i ==> !(same_path((#[trigger] seen@[j]).path@, path@) && seen@[j].missing),
        decreases seen.len() - i,
    {
        if path_is(seen[i].path.as_str(), path) && seen[i].missing {
            assert(same_path(seen@[i as int].path@, path@));
            return true;
        }
        i = i + 1;
    }
    false
}

/// The directory that governs a write into `dir`: `dir` or the deepest ancestor
/// of it that is declared or already a directory, with the mode the write will
/// meet there and whether that mode is a declaration.
pub open spec fn governs(dir: Seq<char>, declared: Seq<(Seq<char>, Mode)>, seen: Seq<Seen>) -> Option<
    (Seq<char>, Mode, bool),
>
    decreases dir.len(),
    via governs_decreases
{
    if dir.len() == 0 {
        None
    } else if declared_mode(declared, dir) is Some {
        Some((dir, declared_mode(declared, dir)->0, true))
    } else if dir_mode(seen, dir) is Some {
        Some((dir, dir_mode(seen, dir)->0, false))
    } else {
        match parent(dir) {
            Some(up) => governs(up, declared, seen),
            None => None,
        }
    }
}

#[via_fn]
proof fn governs_decreases(dir: Seq<char>, declared: Seq<(Seq<char>, Mode)>, seen: Seq<Seen>) {
    lemma_parent_is_shorter(dir);
}

/// The directory that governs a write into `dir`: `dir` or the deepest ancestor
/// of it that is declared or already a directory, with the mode the write will
/// meet there and whether that mode is a declaration.
///
/// On disk it is read through links, because a linked parent is written
/// *through*: the directory that governs the write is the one the link resolves
/// to.
pub fn governing(dir: &str, declared: &Declared, seen: &Vec<Seen>) -> (r: Option<
    (String, Mode, bool),
>)
    ensures
        match r {
            Some((path, mode, is_declared)) => governs(dir@, declared@, seen@) == Some(
                (path@, mode, is_declared),
            ),
            None => governs(dir@, declared@, seen@) is None,
        },
{
    let mut at: String = dir.to_owned();
    loop
        invariant
            governs(at@, declared@, seen@) == governs(dir@, declared@, seen@),
        decreases at@.len(),
    {
        proof {
            lemma_parent_is_shorter(at@);
        }
        if chars_of(at.as_str()).len() == 0 {
            return None;
        }
        if let Some(mode) = declared.get(at.as_str()) {
            return Some((at, mode, true));
        }
        if let Some(mode) = dir_at(seen, at.as_str()) {
            return Some((at, mode, false));
        }
        match parent_of(at.as_str()) {
            Some(up) => {
                at = up;
            },
            None => {
                return None;
            },
        }
    }
}

/// The nearest declared directory above `dir` that denies its owner search.
pub open spec fn unsearchable(dir: Seq<char>, declared: Seq<(Seq<char>, Mode)>) -> Option<(Seq<char>, Mode)>
    decreases dir.len(),
    via unsearchable_decreases
{
    match parent(dir) {
        None => None,
        Some(up) => match declared_mode(declared, up) {
            Some(mode) => if mode.bits & 0o100 == 0 {
                Some((up, mode))
            } else {
                unsearchable(up, declared)
            },
            None => unsearchable(up, declared),
        },
    }
}

#[via_fn]
proof fn unsearchable_decreases(dir: Seq<char>, declared: Seq<(Seq<char>, Mode)>) {
    lemma_parent_is_shorter(dir);
}

/// What is said of a write whose parent cannot be reached.
pub open spec fn unreachable_words(
    governing: Seq<char>,
    dir: Seq<char>,
    home: Seq<char>,
    declared: Seq<(Seq<char>, Mode)>,
) -> Option<Seq<char>> {
    match unsearchable(governing, declared) {
        Some((above, mode)) => Some(
            portable(above, home) + " is declared "@ + mode.shown()
                + ", which denies its owner search, so apply could not reach "@ + portable(
                dir,
                home,
            ) + " beneath it"@,
        ),
        None => None,
    }
}

/// Why the parent of a write cannot be reached: a declared directory above the
/// one that governs the write that denies its owner search.
///
/// Every directory on the way to the parent is searched to reach it, not only
/// the one that governs the write. One on disk that denies search already
/// stopped the observation, and one `apply` makes is made at the default mode,
/// but a declared one is set to its declared mode before any write beneath it
/// and was never observed at that mode. So each declared ancestor of
/// `governing` is tested here, the nearest first.
pub fn unreachable_beneath(
    governing: &str,
    dir: &str,
    home: &str,
    declared: &Declared,
) -> (r: Option<String>)
    ensures
        opt_text(r) == unreachable_words(governing@, dir@, home@, declared@),
{
    let mut at: String = governing.to_owned();
    loop
        invariant
            unsearchable(at@, declared@) == unsearchable(governing@, declared@),
        decreases at@.len(),
    {
        proof {
            lemma_parent_is_shorter(at@);
        }
        match parent_of(at.as_str()) {
            None => {
                return None;
            },
            Some(up) => {
                if let Some(mode) = declared.get(up.as_str()) {
                    if mode.bits & 0o100 == 0 {
                        return Some(
                            to_portable(up.as_str(), home).concat(" is declared ").concat(
                                mode.text().as_str(),
                            ).concat(
                                ", which denies its owner search, so apply could not reach ",
                            ).concat(to_portable(dir, home).as_str()).concat(" beneath it"),
                        );
                    }
                }
                at = up;
            },
        }
    }
}

/// What `apply` does inside the parent [`locked_parent`] tests.
#[derive(Clone, Copy, Debug, PartialEq, Eq, Structural)]
pub enum Write {
    /// Writes a file.
    File,
    /// Makes the directory.
    Create,
    /// Sets the mode of the directory, which is already there.
    Chmod,
}

/// What a directory's mode denies a write, if it denies it anything: a mode
/// change needs search alone.
pub open spec fn denied(mode: Mode, write: Write) -> Option<Seq<char>> {
    if write != Write::Chmod && mode.bits & 0o200 == 0 {
        Some("write"@)
    } else if mode.bits & 0o100 == 0 {
        Some("search"@)
    } else {
        None
    }
}

/// What is said of a write its parent denies.
pub open spec fn locked_words(
    observed: Observed,
    dest: Seq<char>,
    home: Seq<char>,
    declared: Seq<(Seq<char>, Mode)>,
    seen: Seq<Seen>,
    write: Write,
) -> Option<Seq<char>> {
    match observed.parent {
        None => None,
        Some(above) => if above.state is Unusable {
            None
        } else {
            match governs(above.path@, declared, seen) {
                None => None,
                Some((dir, mode, is_declared)) => match denied(mode, write) {
                    None => unreachable_words(dir, above.path@, home, declared),
                    Some(what) => Some(
                        portable(dir, home) + (if is_declared {
                            " is declared "@ + mode.shown()
                        } else {
                            " is "@ + mode.shown() + " on disk"@
                        }) + ", which denies its owner "@ + what + ", so apply could not "@ + (
                        if !same_path(dir, above.path@) {
                            "create "@ + portable(above.path@, home)
                        } else {
                            match write {
                                Write::File => "write a file"@,
                                Write::Create => "create "@ + portable(dest, home),
                                Write::Chmod => "change the mode of "@ + portable(dest, home),
                            }
                        }) + " inside it"@,
                    ),
                },
            }
        },
    }
}

/// Why a write to a destination is refused: the directory that governs it
/// denies its owner what the write needs, on disk or as it is declared, or one
/// declared above it cannot be searched.
///
/// Owner bits are the test, because bx writes as the account that owns its own
/// home. An unusable parent is not this rule's to report: the comparison has
/// already settled it as a conflict with its own reason.
///
/// `write` says what `apply` does inside the parent. A directory whose mode
/// alone changes is changed in place, which needs search on the parent and not
/// write.
pub fn locked_parent(
    observed: &Observed,
    dest: &str,
    home: &str,
    declared: &Declared,
    seen: &Vec<Seen>,
    write: Write,
) -> (r: Option<String>)
    ensures
        opt_text(r) == locked_words(*observed, dest@, home@, declared@, seen@, write),
{
    let above: &Parent = match &observed.parent {
        None => {
            return None;
        },
        Some(above) => above,
    };
    if let ParentState::Unusable(_) = &above.state {
        return None;
    }
    let (dir, mode, is_declared) = match governing(above.path.as_str(), declared, seen) {
        None => {
            return None;
        },
        Some(found) => found,
    };
    let needs_write = match write {
        Write::Chmod => false,
        _ => true,
    };
    let denied = if needs_write && mode.bits & 0o200 == 0 {
        "write"
    } else if mode.bits & 0o100 == 0 {
        "search"
    } else {
        return unreachable_beneath(dir.as_str(), above.path.as_str(), home, declared);
    };
    let basis = if is_declared {
        " is declared ".to_owned().concat(mode.text().as_str())
    } else {
        " is ".to_owned().concat(mode.text().as_str()).concat(" on disk")
    };
    let what = if !path_is(dir.as_str(), above.path.as_str()) {
        "create ".to_owned().concat(to_portable(above.path.as_str(), home).as_str())
    } else {
        match write {
            Write::File => "write a file".to_owned(),
            Write::Create => "create ".to_owned().concat(to_portable(dest, home).as_str()),
            Write::Chmod => "change the mode of ".to_owned().concat(
                to_portable(dest, home).as_str(),
            ),
        }
    };
    Some(
        to_portable(dir.as_str(), home).concat(basis.as_str()).concat(
            ", which denies its owner ",
        ).concat(denied).concat(", so apply could not ").concat(what.as_str()).concat(" inside it"),
    )
}

/// The ancestors of `path` that are not there, deepest first, less any a
/// declared directory's write makes.
pub open spec fn unmade(path: Seq<char>, declared: Seq<(Seq<char>, Mode)>, seen: Seq<Seen>) -> Seq<Seq<char>>
    decreases path.len(),
    via unmade_decreases
{
    match parent(path) {
        None => Seq::empty(),
        Some(up) => if up.len() == 0 || !is_missing(seen, up) {
            Seq::empty()
        } else if makes(declared, up) {
            unmade(up, declared, seen)
        } else {
            seq![up] + unmade(up, declared, seen)
        },
    }
}

#[via_fn]
proof fn unmade_decreases(path: Seq<char>, declared: Seq<(Seq<char>, Mode)>, seen: Seq<Seen>) {
    lemma_parent_is_shorter(path);
}

/// The ancestors of `path` that are not there, deepest first, less any a
/// declared directory's write makes: the declared directory itself, or one on
/// the way to it.
pub fn missing_parents(path: &str, declared: &Declared, seen: &Vec<Seen>) -> (r: Vec<String>)
    ensures
        strings(r@) == unmade(path@, declared@, seen@),
{
    let mut out: Vec<String> = Vec::new();
    let mut at: String = path.to_owned();
    assert(strings(out@) + unmade(at@, declared@, seen@) =~= unmade(path@, declared@, seen@));
    loop
        invariant
            strings(out@) + unmade(at@, declared@, seen@) == unmade(path@, declared@, seen@),
        decreases at@.len(),
    {
        proof {
            lemma_parent_is_shorter(at@);
        }
        let up = match parent_of(at.as_str()) {
            None => {
                assert(strings(out@) =~= unmade(path@, declared@, seen@));
                return out;
            },
            Some(up) => up,
        };
        if chars_of(up.as_str()).len() == 0 || !nothing_at(seen, up.as_str()) {
            assert(strings(out@) =~= unmade(path@, declared@, seen@));
            return out;
        }
        if !declared.makes_dir(up.as_str()) {
            let ghost before = out@;
            out.push(up.clone());
            assert(strings(out@) =~= strings(before).push(up@));
            assert(strings(out@) + unmade(up@, declared@, seen@) =~= strings(before) + unmade(
                at@,
                declared@,
                seen@,
            ));
        }
        at = up;
    }
}

/// Some directories as a row names them, each with the mode it is made at.
pub open spec fn named_dirs(dirs: Seq<Seq<char>>, mode: Mode, home: Seq<char>) -> Seq<Seq<char>> {
    Seq::new(dirs.len(), |i: int| portable(dirs[i], home) + " "@ + mode.shown())
}

/// Some directories as a row names them, each with the mode it is made at.
pub fn name_dirs(dirs: &Vec<String>, mode: Mode, home: &str) -> (r: Vec<String>)
    ensures
        strings(r@) == named_dirs(strings(dirs@), mode, home@),
{
    let ghost all = named_dirs(strings(dirs@), mode, home@);
    let mut out: Vec<String> = Vec::new();
    let mut i: usize = 0;
    assert(strings(out@) =~= all.subrange(0, 0));
    while i < dirs.len()
        invariant
            i <= dirs.len(),
            all == named_dirs(strings(dirs@), mode, home@),
            strings(out@) == all.subrange(0, i as int),
        decreases dirs.len() - i,
    {
        let ghost before = out@;
        out.push(to_portable(dirs[i].as_str(), home).concat(" ").concat(mode.text().as_str()));
        assert(strings(out@) =~= strings(before).push(all[i as int]));
        assert(strings(out@) =~= all.subrange(0, i + 1));
        i = i + 1;
    }
    assert(strings(out@) =~= all);
    out
}

/// Some strings in the opposite order.
pub fn reversed(texts: &Vec<String>) -> (r: Vec<String>)
    ensures
        strings(r@) == strings(texts@).reverse(),
{
    let mut out: Vec<String> = Vec::new();
    let mut i: usize = texts.len();
    while i > 0
        invariant
            i <= texts.len(),
            out@.len() == texts@.len() - i,
            forall|k: int| 0 <= k < out@.len() ==> (#[trigger] out@[k])@ == texts@[texts@.len() - 1 - k]@,
        decreases i,
    {
        i = i - 1;
        out.push(texts[i].clone());
    }
    assert(strings(out@) =~= strings(texts@).reverse());
    out
}

/// What is said of the directories a write creates.
pub open spec fn creates_words(observed: Observed, home: Seq<char>, declared: Seq<(Seq<char>, Mode)>, seen: Seq<Seen>) -> Option<
    Seq<char>,
> {
    match observed.parent {
        None => None,
        Some(above) => match above.state {
            ParentState::Absent(mode) => {
                let missing = unmade(observed.path@, declared, seen);
                if missing.len() == 0 {
                    None
                } else {
                    Some("creates "@ + listed(named_dirs(missing.reverse(), mode, home), ", "@))
                }
            },
            _ => None,
        },
    }
}

/// The directories a write to `observed` creates, shallowest first (the order
/// `apply` makes them in), each with the mode it is made at, or `None` when the
/// parent is already there or a directory target makes every one missing.
///
/// A missing directory a directory target makes, the declared one or one on the
/// way to it, is that target's row to name, since its write runs first.
pub fn created_dirs(
    observed: &Observed,
    home: &str,
    declared: &Declared,
    seen: &Vec<Seen>,
) -> (r: Option<String>)
    ensures
        opt_text(r) == creates_words(*observed, home@, declared@, seen@),
{
    let above: &Parent = match &observed.parent {
        None => {
            return None;
        },
        Some(above) => above,
    };
    let mode = match &above.state {
        ParentState::Absent(mode) => *mode,
        _ => {
            return None;
        },
    };
    let missing = missing_parents(observed.path.as_str(), declared, seen);
    assert(strings(missing@).len() == missing@.len());
    if missing.len() == 0 {
        return None;
    }
    let named = name_dirs(&reversed(&missing), mode, home);
    Some("creates ".to_owned().concat(list(&named, ", ").as_str()))
}

/// The nearest of `dir` and its ancestors whose spelling, and a space, lead
/// `reason`.
pub open spec fn led_by(dir: Seq<char>, reason: Seq<char>) -> Option<Seq<char>>
    decreases dir.len(),
    via led_by_decreases
{
    if begins(reason, dir + " "@) {
        Some(dir)
    } else {
        match parent(dir) {
            Some(up) => led_by(up, reason),
            None => None,
        }
    }
}

#[via_fn]
proof fn led_by_decreases(dir: Seq<char>, reason: Seq<char>) {
    lemma_parent_is_shorter(dir);
}

/// Whether `text` ends with `suffix`.
pub open spec fn ends(text: Seq<char>, suffix: Seq<char>) -> bool {
    text.len() >= suffix.len() && text.subrange(text.len() - suffix.len(), text.len() as int)
        == suffix
}

/// A reason a directory cannot hold a file, with its paths spelled as rows
/// spell paths.
pub open spec fn reason_words(dir: Seq<char>, reason: Seq<char>, home: Seq<char>) -> Seq<char> {
    match led_by(dir, reason) {
        None => portable(dir, home)
            + " does not resolve to a directory, so bx cannot write a file inside it"@,
        Some(above) => {
            let rest = reason.subrange(above.len() as int + 1, reason.len() as int);
            let tail = "create "@ + dir + " inside it"@;
            portable(above, home) + " "@ + if ends(rest, tail) {
                rest.subrange(0, rest.len() - tail.len()) + "create "@ + portable(dir, home)
                    + " inside it"@
            } else {
                rest
            }
        },
    }
}

fn leading(dir: &str, reason: &str) -> (r: Option<String>)
    ensures
        match r {
            Some(above) => led_by(dir@, reason@) == Some(above@),
            None => led_by(dir@, reason@) is None,
        },
{
    let mut at: String = dir.to_owned();
    loop
        invariant
            led_by(at@, reason@) == led_by(dir@, reason@),
        decreases at@.len(),
    {
        proof {
            lemma_parent_is_shorter(at@);
        }
        if crate::text::begins_with(reason, at.clone().concat(" ").as_str()) {
            return Some(at);
        }
        match parent_of(at.as_str()) {
            Some(up) => {
                at = up;
            },
            None => {
                return None;
            },
        }
    }
}

/// Why the parent `dir` cannot hold a file, with every path in `reason` spelled
/// as plan output spells paths: `~/` and the rest under `home`, absolute
/// outside.
///
/// The absolute spelling of `dir`, or of the ancestor of `dir` that stops it,
/// leads a reason, and a reason about an ancestor ends by naming `dir` as what
/// cannot be created. Those two spellings are put back from the paths
/// themselves, `dir` and its ancestors, never the home's text, and nothing else
/// in the reason is touched. A reason in any other shape is replaced by one
/// naming `dir` alone, so no absolute home reaches a row.
pub fn portable_reason(dir: &str, reason: &str, home: &str) -> (r: String)
    ensures
        r@ == reason_words(dir@, reason@, home@),
{
    let above = match leading(dir, reason) {
        None => {
            return to_portable(dir, home).concat(
                " does not resolve to a directory, so bx cannot write a file inside it",
            );
        },
        Some(above) => above,
    };
    proof {
        lemma_led_by(dir@, reason@);
        reveal_strlit(" ");
    }
    let chars = chars_of(reason);
    let start = chars_of(above.clone().concat(" ").as_str()).len();
    let rest = vstd::slice::slice_subrange(chars.as_slice(), start, chars.len());
    let tail = chars_of("create ".to_owned().concat(dir).concat(" inside it").as_str());
    assert(rest@ == reason@.subrange(above@.len() as int + 1, reason@.len() as int));
    let head = to_portable(above.as_str(), home).concat(" ");
    if rest.len() >= tail.len() && begins_at(rest, rest.len() - tail.len(), tail.as_slice()) {
        let before = vstd::slice::slice_subrange(rest, 0, rest.len() - tail.len());
        proof {
            let from = rest@.len() - tail@.len();
            assert(rest@.subrange(from, rest@.len() as int).subrange(0, tail@.len() as int)
                =~= rest@.subrange(from, rest@.len() as int));
        }
        let out = head.concat(text_of(before).as_str()).concat("create ").concat(
            to_portable(dir, home).as_str(),
        ).concat(" inside it");
        assert(out@ =~= reason_words(dir@, reason@, home@));
        out
    } else {
        proof {
            if rest@.len() >= tail@.len() {
                let from = rest@.len() - tail@.len();
                assert(rest@.subrange(from, rest@.len() as int).subrange(0, tail@.len() as int)
                    =~= rest@.subrange(from, rest@.len() as int));
            }
        }
        let out = head.concat(text_of(rest).as_str());
        assert(out@ =~= reason_words(dir@, reason@, home@));
        out
    }
}

proof fn lemma_led_by(dir: Seq<char>, reason: Seq<char>)
    ensures
        led_by(dir, reason) is Some ==> begins(reason, led_by(dir, reason)->0 + " "@),
    decreases dir.len(),
{
    lemma_parent_is_shorter(dir);
    if !begins(reason, dir + " "@) && parent(dir) is Some {
        lemma_led_by(parent(dir)->0, reason);
    }
}

/// Why the parent of a destination cannot hold a file, as a row says it.
pub open spec fn unusable_words(observed: Observed, home: Seq<char>) -> Option<Seq<char>> {
    match observed.parent {
        Some(above) => match above.state {
            ParentState::Unusable(reason) => Some(reason_words(above.path@, reason@, home)),
            _ => None,
        },
        None => None,
    }
}

/// Why the parent of a destination cannot hold a file, as a row says it.
pub fn unusable_parent(observed: &Observed, home: &str) -> (r: Option<String>)
    ensures
        opt_text(r) == unusable_words(*observed, home@),
{
    match &observed.parent {
        Some(above) => match &above.state {
            ParentState::Unusable(reason) => Some(
                portable_reason(above.path.as_str(), reason.as_str(), home),
            ),
            _ => None,
        },
        None => None,
    }
}

/// What is said of a file in a declared directory: nothing at the outer level
/// where its directory is not declared, and nothing at the inner one where the
/// declared mode is not wider than the file's.
pub open spec fn parent_words(
    observed: Observed,
    mode: Mode,
    home: Seq<char>,
    declared: Seq<(Seq<char>, Mode)>,
) -> Option<Option<Seq<char>>> {
    match observed.parent {
        None => None,
        Some(above) => match declared_mode(declared, above.path@) {
            None => None,
            Some(set) => Some(
                if set.wider_than(mode) {
                    Some(
                        portable(above.path@, home) + " is declared "@ + set.shown()
                            + ", wider than the "@ + mode.shown() + " this file declares"@,
                    )
                } else {
                    None
                },
            ),
        },
    }
}

/// The parent note a file gets when its parent is a declared directory: the
/// declared mode is the one the file will sit in, whatever is on disk now.
///
/// `None` when the parent is not declared, so the comparison's own note stands;
/// `Some(None)` when the declared mode is not wider than the file's.
pub fn parent_note(
    observed: &Observed,
    mode: Mode,
    home: &str,
    declared: &Declared,
) -> (r: Option<Option<String>>)
    ensures
        match r {
            Some(note) => parent_words(*observed, mode, home@, declared@) == Some(
                opt_text(note),
            ),
            None => parent_words(*observed, mode, home@, declared@) is None,
        },
{
    let above: &Parent = match &observed.parent {
        None => {
            return None;
        },
        Some(above) => above,
    };
    let set = match declared.get(above.path.as_str()) {
        None => {
            return None;
        },
        Some(set) => set,
    };
    if !set.is_wider_than(mode) {
        return Some(None);
    }
    Some(
        Some(
            to_portable(above.path.as_str(), home).concat(" is declared ").concat(
                set.text().as_str(),
            ).concat(", wider than the ").concat(mode.text().as_str()).concat(
                " this file declares",
            ),
        ),
    )
}

/// The last declaration of a directory is the one that counts, whatever way each
/// spells it; a directory none names has no declared mode.
pub proof fn the_last_declaration_counts(declared: Seq<(Seq<char>, Mode)>, path: Seq<char>)
    ensures
        declared_mode(declared, path) is None <==> forall|i: int|
            0 <= i < declared.len() ==> !same_path((#[trigger] declared[i]).0, path),
        declared_mode(declared, path) matches Some(mode) ==> exists|i: int|
            0 <= i < declared.len() && same_path((#[trigger] declared[i]).0, path) && declared[i].1
                == mode && forall|j: int|
                i < j < declared.len() ==> !same_path((#[trigger] declared[j]).0, path),
    decreases declared.len(),
{
    if declared.len() > 0 {
        let some = declared.drop_last();
        the_last_declaration_counts(some, path);
        if same_path(declared.last().0, path) {
            assert(same_path(declared[declared.len() - 1].0, path));
        } else {
            assert forall|i: int| 0 <= i < some.len() implies #[trigger] declared[i]
                == some[i] by {}
            if let Some(mode) = declared_mode(some, path) {
                let i = choose|i: int|
                    0 <= i < some.len() && same_path((#[trigger] some[i]).0, path) && some[i].1
                        == mode && forall|j: int|
                        i < j < some.len() ==> !same_path((#[trigger] some[j]).0, path);
                assert(same_path(declared[i].0, path));
                assert forall|j: int| i < j < declared.len() implies !same_path(
                    (#[trigger] declared[j]).0,
                    path,
                ) by {
                    if j < some.len() {
                        assert(!same_path(some[j].0, path));
                    }
                }
            } else {
                assert forall|i: int| 0 <= i < declared.len() implies !same_path(
                    (#[trigger] declared[i]).0,
                    path,
                ) by {
                    if i < some.len() {
                        assert(!same_path(some[i].0, path));
                    }
                }
            }
        }
    }
}

/// A directory's mode is the one it was first found with; one that was not found
/// as a directory has none.
pub proof fn a_directory_has_the_mode_it_was_found_with(seen: Seq<Seen>, path: Seq<char>)
    ensures
        dir_mode(seen, path) is None <==> forall|i: int|
            0 <= i < seen.len() && same_path((#[trigger] seen[i]).path@, path) ==> seen[i].dir
                is None,
        dir_mode(seen, path) matches Some(mode) ==> exists|i: int|
            0 <= i < seen.len() && same_path((#[trigger] seen[i]).path@, path) && seen[i].dir
                == Some(mode) && forall|j: int|
                0 <= j < i && same_path((#[trigger] seen[j]).path@, path) ==> seen[j].dir is None,
    decreases seen.len(),
{
    if seen.len() > 0 {
        let rest = seen.drop_first();
        a_directory_has_the_mode_it_was_found_with(rest, path);
        if same_path(seen[0].path@, path) && seen[0].dir is Some {
            assert(same_path(seen[0].path@, path));
        } else {
            assert forall|i: int| 0 < i < seen.len() implies #[trigger] seen[i] == rest[i - 1] by {}
            if let Some(mode) = dir_mode(rest, path) {
                let i = choose|i: int|
                    0 <= i < rest.len() && same_path((#[trigger] rest[i]).path@, path)
                        && rest[i].dir == Some(mode) && forall|j: int|
                        0 <= j < i && same_path((#[trigger] rest[j]).path@, path)
                            ==> rest[j].dir is None;
                assert(seen[i + 1] == rest[i]);
                assert forall|j: int|
                    0 <= j < i + 1 && same_path(
                        (#[trigger] seen[j]).path@,
                        path,
                    ) implies seen[j].dir is None by {
                    if j > 0 {
                        assert(rest[j - 1].dir is None);
                    }
                }
            } else {
                assert forall|i: int|
                    0 <= i < seen.len() && same_path(
                        (#[trigger] seen[i]).path@,
                        path,
                    ) implies seen[i].dir is None by {
                    if i > 0 {
                        assert(rest[i - 1].dir is None);
                    }
                }
            }
        }
    }
}

/// The directory `n` levels above a path: the path itself, the directory it is
/// in, the one that is in, and so on.
pub open spec fn above(path: Seq<char>, n: nat) -> Option<Seq<char>>
    decreases n,
{
    if n == 0 {
        Some(path)
    } else {
        match above(path, (n - 1) as nat) {
            Some(dir) => parent(dir),
            None => None,
        }
    }
}

/// What is `n` levels above a path is one level less above its directory.
pub proof fn lemma_above_next(path: Seq<char>, n: nat)
    requires
        n > 0,
    ensures
        above(path, n) == match parent(path) {
            Some(up) => above(up, (n - 1) as nat),
            None => None,
        },
    decreases n,
{
    reveal_with_fuel(above, 2);
    if n > 1 {
        lemma_above_next(path, (n - 1) as nat);
    }
}

/// The directory that governs a write is the nearest, counting from the one the
/// write is in, that is declared or was found to be a directory: none between is
/// either, a declaration counts before what was found, and its mode is the one
/// the write meets. Where none is, nothing governs.
pub proof fn the_nearest_directory_governs(
    dir: Seq<char>,
    declared: Seq<(Seq<char>, Mode)>,
    seen: Seq<Seen>,
)
    ensures
        match governs(dir, declared, seen) {
            Some((at, mode, is_declared)) => exists|n: nat|
                {
                    &&& #[trigger] above(dir, n) == Some(at)
                    &&& at.len() > 0
                    &&& is_declared ==> declared_mode(declared, at) == Some(mode)
                    &&& !is_declared ==> declared_mode(declared, at) is None && dir_mode(seen, at)
                        == Some(mode)
                    &&& forall|m: nat|
                        m < n ==> (#[trigger] above(dir, m) matches Some(low) && declared_mode(
                            declared,
                            low,
                        ) is None && dir_mode(seen, low) is None)
                },
            None => forall|n: nat|
                (forall|m: nat|
                    m <= n ==> (#[trigger] above(dir, m) matches Some(low) && low.len() > 0))
                    ==> declared_mode(declared, (#[trigger] above(dir, n))->0) is None && dir_mode(
                    seen,
                    above(dir, n)->0,
                ) is None,
        },
    decreases dir.len(),
{
    lemma_parent_is_shorter(dir);
    assert(above(dir, 0) == Some(dir));
    if dir.len() == 0 {
    } else if declared_mode(declared, dir) is Some || dir_mode(seen, dir) is Some {
        assert(above(dir, 0) == Some(dir));
    } else if let Some(up) = parent(dir) {
        the_nearest_directory_governs(up, declared, seen);
        match governs(up, declared, seen) {
            Some((at, mode, is_declared)) => {
                let n = choose|n: nat|
                    {
                        &&& #[trigger] above(up, n) == Some(at)
                        &&& at.len() > 0
                        &&& is_declared ==> declared_mode(declared, at) == Some(mode)
                        &&& !is_declared ==> declared_mode(declared, at) is None && dir_mode(
                            seen,
                            at,
                        ) == Some(mode)
                        &&& forall|m: nat|
                            m < n ==> (#[trigger] above(up, m) matches Some(low) && declared_mode(
                                declared,
                                low,
                            ) is None && dir_mode(seen, low) is None)
                    };
                lemma_above_next(dir, n + 1);
                assert(above(dir, n + 1) == Some(at));
                assert forall|m: nat| m < n + 1 implies (#[trigger] above(
                    dir,
                    m,
                ) matches Some(low) && declared_mode(declared, low) is None && dir_mode(
                    seen,
                    low,
                ) is None) by {
                    if m > 0 {
                        lemma_above_next(dir, m);
                        assert(above(up, (m - 1) as nat) is Some);
                    }
                }
            },
            None => {
                assert forall|n: nat|
                    (forall|m: nat|
                        m <= n ==> (#[trigger] above(
                            dir,
                            m,
                        ) matches Some(low) && low.len() > 0)) implies declared_mode(
                    declared,
                    (#[trigger] above(dir, n))->0,
                ) is None && dir_mode(seen, above(dir, n)->0) is None by {
                    if n > 0 {
                        lemma_above_next(dir, n);
                        assert forall|m: nat| m <= (n - 1) as nat implies (#[trigger] above(
                            up,
                            m,
                        ) matches Some(low) && low.len() > 0) by {
                            lemma_above_next(dir, m + 1);
                            assert(above(dir, m + 1) is Some);
                        }
                        assert(above(up, (n - 1) as nat) is Some);
                    }
                }
            },
        }
    } else {
        assert forall|n: nat|
            (forall|m: nat|
                m <= n ==> (#[trigger] above(
                    dir,
                    m,
                ) matches Some(low) && low.len() > 0)) implies declared_mode(
            declared,
            (#[trigger] above(dir, n))->0,
        ) is None && dir_mode(seen, above(dir, n)->0) is None by {
            if n > 0 {
                lemma_above_next(dir, n);
            }
        }
    }
}

/// The directory that stops a write on the way is the nearest declared one
/// strictly above that denies its owner search; where none does, nothing stops
/// it.
pub proof fn the_nearest_unsearchable_directory_stops_a_write(
    dir: Seq<char>,
    declared: Seq<(Seq<char>, Mode)>,
)
    ensures
        match unsearchable(dir, declared) {
            Some((at, mode)) => exists|n: nat|
                {
                    &&& n > 0
                    &&& #[trigger] above(dir, n) == Some(at)
                    &&& declared_mode(declared, at) == Some(mode)
                    &&& mode.bits & 0o100 == 0
                    &&& forall|m: nat|
                        0 < m < n && declared_mode(declared, (#[trigger] above(dir, m))->0) is Some
                            ==> declared_mode(declared, above(dir, m)->0)->0.bits & 0o100 != 0
                },
            None => forall|n: nat|
                n > 0 && (#[trigger] above(dir, n) matches Some(up) && declared_mode(
                    declared,
                    up,
                ) is Some) ==> declared_mode(declared, above(dir, n)->0)->0.bits & 0o100 != 0,
        },
    decreases dir.len(),
{
    lemma_parent_is_shorter(dir);
    assert(above(dir, 0) == Some(dir));
    assert(above(dir, 1) == parent(dir)) by {
        reveal_with_fuel(above, 2);
    }
    if let Some(up) = parent(dir) {
        let stops = declared_mode(declared, up) is Some && declared_mode(declared, up)->0.bits
            & 0o100 == 0;
        if !stops {
            the_nearest_unsearchable_directory_stops_a_write(up, declared);
            match unsearchable(up, declared) {
                Some((at, mode)) => {
                    let n = choose|n: nat|
                        {
                            &&& n > 0
                            &&& #[trigger] above(up, n) == Some(at)
                            &&& declared_mode(declared, at) == Some(mode)
                            &&& mode.bits & 0o100 == 0
                            &&& forall|m: nat|
                                0 < m < n && declared_mode(
                                    declared,
                                    (#[trigger] above(up, m))->0,
                                ) is Some ==> declared_mode(declared, above(up, m)->0)->0.bits
                                    & 0o100 != 0
                        };
                    lemma_above_next(dir, n + 1);
                    assert(above(dir, n + 1) == Some(at));
                    assert forall|m: nat|
                        0 < m < n + 1 && declared_mode(
                            declared,
                            (#[trigger] above(dir, m))->0,
                        ) is Some implies declared_mode(declared, above(dir, m)->0)->0.bits & 0o100
                        != 0 by {
                        lemma_above_next(dir, m);
                        if m > 1 {
                            assert(above(dir, m) == above(up, (m - 1) as nat));
                        } else {
                            assert(above(up, 0) == Some(up));
                        }
                    }
                },
                None => {
                    assert forall|n: nat|
                        n > 0 && (#[trigger] above(dir, n) matches Some(a) && declared_mode(
                            declared,
                            a,
                        ) is Some) implies declared_mode(declared, above(dir, n)->0)->0.bits & 0o100
                        != 0 by {
                        lemma_above_next(dir, n);
                        if n > 1 {
                            assert(above(dir, n) == above(up, (n - 1) as nat));
                        } else {
                            assert(above(up, 0) == Some(up));
                        }
                    }
                },
            }
        }
    } else {
        assert forall|n: nat| n > 0 implies #[trigger] above(dir, n) is None by {
            lemma_above_next(dir, n);
        }
    }
}

/// A write is refused exactly where the directory that governs it denies its
/// owner what it needs (search, and write unless it only changes a mode) or a
/// declared directory above that one cannot be searched. An unusable parent, no
/// parent and no governing directory refuse nothing here.
pub proof fn a_write_is_refused_only_by_its_directory(
    observed: Observed,
    dest: Seq<char>,
    home: Seq<char>,
    declared: Seq<(Seq<char>, Mode)>,
    seen: Seq<Seen>,
    write: Write,
)
    ensures
        ({
            let locked = locked_words(observed, dest, home, declared, seen, write);
            match observed.parent {
                None => locked is None,
                Some(into) => {
                    let governing = governs(into.path@, declared, seen);
                    &&& into.state is Unusable ==> locked is None
                    &&& governing is None ==> locked is None
                    &&& into.state !is Unusable && governing is Some ==> ({
                        let (dir, mode, is_declared) = governing->0;
                        locked is Some <==> {
                            ||| mode.bits & 0o100 == 0
                            ||| write != Write::Chmod && mode.bits & 0o200 == 0
                            ||| unsearchable(dir, declared) is Some
                        }
                    })
                },
            }
        }),
{
}

/// A refusal names the directory that refuses, its mode and where that comes
/// from, what it denies, and what therefore could not be done in it.
pub proof fn a_refused_write_says_what_was_denied(
    observed: Observed,
    dest: Seq<char>,
    home: Seq<char>,
    declared: Seq<(Seq<char>, Mode)>,
    seen: Seq<Seen>,
    write: Write,
)
    requires
        observed.parent is Some,
        observed.parent->0.state !is Unusable,
        governs(observed.parent->0.path@, declared, seen) is Some,
    ensures
        ({
            let into = observed.parent->0.path@;
            let (dir, mode, is_declared) = governs(into, declared, seen)->0;
            let locked = locked_words(observed, dest, home, declared, seen, write);
            let no_write = write != Write::Chmod && mode.bits & 0o200 == 0;
            let no_search = mode.bits & 0o100 == 0;
            let basis = if is_declared {
                " is declared "@ + mode.shown()
            } else {
                " is "@ + mode.shown() + " on disk"@
            };
            let what = if !same_path(dir, into) {
                "create "@ + portable(into, home)
            } else if write == Write::File {
                "write a file"@
            } else if write == Write::Create {
                "create "@ + portable(dest, home)
            } else {
                "change the mode of "@ + portable(dest, home)
            };
            &&& no_write ==> locked == Some(
                portable(dir, home) + basis + ", which denies its owner "@ + "write"@
                    + ", so apply could not "@ + what + " inside it"@,
            )
            &&& !no_write && no_search ==> locked == Some(
                portable(dir, home) + basis + ", which denies its owner "@ + "search"@
                    + ", so apply could not "@ + what + " inside it"@,
            )
            &&& !no_write && !no_search ==> (unsearchable(dir, declared) matches Some((up, set))
                ==> locked == Some(
                portable(up, home) + " is declared "@ + set.shown()
                    + ", which denies its owner search, so apply could not reach "@ + portable(
                    into,
                    home,
                ) + " beneath it"@,
            ))
        }),
{
}

/// The directories a write makes are those above it that are not there, from the
/// nearest up to the first that is, less those a declared directory's own write
/// makes; deepest first.
pub proof fn only_missing_directories_are_made(
    path: Seq<char>,
    declared: Seq<(Seq<char>, Mode)>,
    seen: Seq<Seen>,
    dir: Seq<char>,
)
    ensures
        unmade(path, declared, seen).contains(dir) <==> exists|n: nat|
            {
                &&& n > 0
                &&& #[trigger] above(path, n) == Some(dir)
                &&& !makes(declared, dir)
                &&& forall|m: nat|
                    0 < m <= n ==> (#[trigger] above(path, m) matches Some(up) && up.len() > 0
                        && is_missing(seen, up))
            },
    decreases path.len(),
{
    lemma_parent_is_shorter(path);
    assert(above(path, 0) == Some(path));
    assert(above(path, 1) == parent(path)) by {
        reveal_with_fuel(above, 2);
    }
    let all = unmade(path, declared, seen);
    if let Some(up) = parent(path) {
        if up.len() == 0 || !is_missing(seen, up) {
            assert(!all.contains(dir));
            assert forall|n: nat| n > 0 implies !{
                &&& #[trigger] above(path, n) == Some(dir)
                &&& !makes(declared, dir)
                &&& forall|m: nat|
                    0 < m <= n ==> (#[trigger] above(path, m) matches Some(up) && up.len() > 0
                        && is_missing(seen, up))
            } by {
                assert(above(path, 1) == Some(up));
            }
        } else {
            only_missing_directories_are_made(up, declared, seen, dir);
            let rest = unmade(up, declared, seen);
            let first = !makes(declared, up) && dir == up;
            assert(all.contains(dir) <==> first || rest.contains(dir)) by {
                if makes(declared, up) {
                    assert(all == rest);
                } else {
                    assert(all == seq![up] + rest);
                    if rest.contains(dir) {
                        let k = rest.index_of(dir);
                        assert(all[k + 1] == dir);
                    }
                    if dir == up {
                        assert(all[0] == dir);
                    }
                    if all.contains(dir) {
                        let k = all.index_of(dir);
                        if k > 0 {
                            assert(rest[k - 1] == dir);
                        }
                    }
                }
            }
            if first {
                assert(above(path, 1) == Some(dir));
                assert forall|m: nat| 0 < m <= 1 implies (#[trigger] above(
                    path,
                    m,
                ) matches Some(low) && low.len() > 0 && is_missing(seen, low)) by {}
            }
            if rest.contains(dir) {
                let n = choose|n: nat|
                    {
                        &&& n > 0
                        &&& #[trigger] above(up, n) == Some(dir)
                        &&& !makes(declared, dir)
                        &&& forall|m: nat|
                            0 < m <= n ==> (#[trigger] above(up, m) matches Some(low) && low.len()
                                > 0 && is_missing(seen, low))
                    };
                lemma_above_next(path, n + 1);
                assert(above(path, n + 1) == Some(dir));
                assert forall|m: nat| 0 < m <= n + 1 implies (#[trigger] above(
                    path,
                    m,
                ) matches Some(low) && low.len() > 0 && is_missing(seen, low)) by {
                    lemma_above_next(path, m);
                    if m > 1 {
                        assert(above(path, m) == above(up, (m - 1) as nat));
                    } else {
                        assert(above(up, 0) == Some(up));
                    }
                }
            }
            assert forall|n: nat|
                {
                    &&& n > 0
                    &&& #[trigger] above(path, n) == Some(dir)
                    &&& !makes(declared, dir)
                    &&& forall|m: nat|
                        0 < m <= n ==> (#[trigger] above(path, m) matches Some(low) && low.len() > 0
                            && is_missing(seen, low))
                } implies all.contains(dir) by {
                lemma_above_next(path, n);
                if n > 1 {
                    let k = (n - 1) as nat;
                    assert(above(up, k) == Some(dir));
                    assert forall|m: nat| 0 < m <= k implies (#[trigger] above(
                        up,
                        m,
                    ) matches Some(low) && low.len() > 0 && is_missing(seen, low)) by {
                        lemma_above_next(path, m + 1);
                        assert(above(path, m + 1) is Some);
                    }
                    assert(rest.contains(dir));
                } else {
                    assert(above(up, 0) == Some(up));
                    assert(first);
                }
            }
        }
    } else {
        assert(!all.contains(dir));
        assert forall|n: nat| n > 0 implies #[trigger] above(path, n) is None by {
            lemma_above_next(path, n);
        }
    }
}

/// The directories a write makes are said where its own directory is not there
/// and some of those above it are its own to make: each once, the shallowest
/// first, with the mode it is made at.
pub proof fn every_directory_that_is_made_is_said(
    observed: Observed,
    home: Seq<char>,
    declared: Seq<(Seq<char>, Mode)>,
    seen: Seq<Seen>,
)
    ensures
        ({
            let made = unmade(observed.path@, declared, seen);
            let said = creates_words(observed, home, declared, seen);
            let absent = observed.parent is Some && observed.parent->0.state is Absent;
            &&& said is Some <==> absent && made.len() > 0
            &&& said is Some ==> ({
                let mode = observed.parent->0.state->Absent_0;
                let names = Seq::new(
                    made.len(),
                    |k: int| portable(made[made.len() - 1 - k], home) + " "@ + mode.shown(),
                );
                said == Some("creates "@ + listed(names, ", "@))
            })
        }),
{
    let made = unmade(observed.path@, declared, seen);
    if observed.parent is Some && observed.parent->0.state is Absent && made.len() > 0 {
        let mode = observed.parent->0.state->Absent_0;
        let names = Seq::new(
            made.len(),
            |k: int| portable(made[made.len() - 1 - k], home) + " "@ + mode.shown(),
        );
        assert(named_dirs(made.reverse(), mode, home) =~= names);
    }
}

/// A directory declared wider than the file in it is to be is said so, with both
/// modes; one that is declared no wider says nothing, whatever is on disk.
pub proof fn a_declared_directory_is_judged_by_its_declaration(
    observed: Observed,
    mode: Mode,
    home: Seq<char>,
    declared: Seq<(Seq<char>, Mode)>,
)
    ensures
        ({
            let said = parent_words(observed, mode, home, declared);
            match observed.parent {
                None => said is None,
                Some(into) => match declared_mode(declared, into.path@) {
                    None => said is None,
                    Some(set) => {
                        &&& set.wider_than(mode) ==> said == Some(
                            Some(
                                portable(into.path@, home) + " is declared "@ + set.shown()
                                    + ", wider than the "@ + mode.shown() + " this file declares"@,
                            ),
                        )
                        &&& !set.wider_than(mode) ==> said == Some(None::<Seq<char>>)
                    },
                },
            }
        }),
{
}

} // verus!
