//! The cloning of one external, and its order.
//!
//! An interrupted clone is never mistaken for a finished one. Before a clone's
//! first byte lands, the ledger records the directory as bx's and not yet a
//! finished checkout, and is saved. Only once the checkout is at its commit is
//! the entry recorded with it. A clone that fails is removed again and its entry
//! put back as it was.
//!
//! As in a session, the machine decides and the program acts: each call hands
//! out the one thing to do next, and the program reports what came of it.

use crate::fs::{Kind, Mode};
use crate::journal::error::{kind_words, Error as JournalError};
use crate::journal::session::{copy_texts, portable_dirs, portables};
use crate::plan::checkout::{
    a_failed_clone_leaves_the_ledger_as_it_was, begin_clone, by_depth, clone_start,
    deepest_comes_first, is_clone_entry, made_dirs, made_of, populate, populated, record_rev, same_entry, undo_clone, was, Go, Mkdir, Op,
    Start, Step,
};
use crate::plan::error::Error;
use crate::plan::external::{clone_at, clone_digest, clone_written, Work};
use crate::plan::git::{Query, Trouble};
use crate::paths::{components, portable};
use crate::plan::parents::reversed;
use crate::state::{
    is_entry, position, recorded, texts, what_is_recorded_is_held, Ledger, LedgerEntry,
};
use crate::text::strings;
use vstd::prelude::*;

verus! {

/// Where a clone is.
#[derive(Debug, PartialEq, Eq)]
pub enum Stage {
    /// What is at the path is being looked at.
    Look,
    /// What an interrupted clone left there is being removed.
    Remove,
    /// The directories on the way to it are being made.
    Parents,
    /// The directories that were made are being removed again, one having
    /// failed.
    Back,
    /// The ledger is being saved, the clone begun and not finished.
    Begin,
    /// The directory is being made.
    Make,
    /// It is being filled.
    Fill(Step),
    /// Its mode is being read.
    Mode,
    /// The ledger is being saved, the clone finished.
    Finish,
    /// What a failed clone put there is being removed.
    Discard,
    /// The directories that were made on the way are being removed again.
    Prune,
    /// The ledger is being saved, as it was before the clone.
    Undo,
    /// The clone is over.
    Over,
}

/// What the program is to do next.
#[derive(Debug, PartialEq, Eq)]
pub enum Ask {
    /// Look at this path.
    Look(String),
    /// Remove this directory and everything in it.
    Remove(String),
    /// Make these directories, in this order, up to the first that fails.
    Parents(Vec<String>),
    /// Save the ledger.
    Save,
    /// Make this directory.
    Make(String),
    /// Put this to git, in the directory.
    Git(Query),
    /// Read the mode of this directory.
    Mode(String),
    /// Remove this, with everything in it, if it is a directory.
    Discard(String),
    /// Remove these directories, in this order, up to the first that is not
    /// empty.
    Prune(Vec<String>),
    /// Nothing: the checkout is at its commit.
    Done,
    /// Nothing: the clone stopped, and why.
    Stopped(String),
}

/// What the program did.
#[derive(Debug, PartialEq, Eq)]
pub enum Did {
    /// This is what is there.
    Found(Kind),
    /// It removed what was there.
    Removed,
    /// This is what came of each directory it tried to make.
    Parents(Vec<Mkdir>),
    /// The ledger is saved.
    Saved,
    /// The directory is made, or it could not be made, and why.
    Made(Result<(), String>),
    /// This is what git answered.
    Replied(Result<String, Trouble>),
    /// This is the directory's mode, where it could be told.
    Mode(Option<Mode>),
    /// Nothing is there any more.
    Discarded,
    /// Every directory it may remove is removed.
    Pruned,
    /// It could not, and why.
    Failed(Error),
}

/// How far the cloning of one external is: everything it holds.
pub struct Progress {
    /// What is cloned, and where.
    pub op: Op,
    /// Where the clone is.
    pub stage: Stage,
    /// The directories that were made on the way, deepest first.
    pub made: Vec<String>,
    /// What the ledger held of the path before the clone was begun.
    pub before: Option<LedgerEntry>,
    /// Why the clone stopped, if it did.
    pub note: Option<String>,
    /// The ledger before the clone was begun.
    pub held: Ghost<Ledger>,
    /// The ledger as it was last saved.
    pub saved: Ghost<Seq<LedgerEntry>>,
}

/// Whether two ledgers say the same.
pub open spec fn same_entries(a: Seq<LedgerEntry>, b: Seq<LedgerEntry>) -> bool {
    a.len() == b.len() && forall|i: int| 0 <= i < a.len() ==> same_entry(#[trigger] a[i], b[i])
}

/// Whether a ledger holds a clone at `rev`, or with `None` one that is not
/// finished.
pub open spec fn holds_clone(
    entries: Seq<LedgerEntry>,
    target: Seq<char>,
    rev: Option<Seq<char>>,
) -> bool {
    exists|i: int| #[trigger]
        is_entry(entries, target, i) && entries[i].mechanism is Clone && clone_at(entries[i], rev)
}

/// Whether a ledger holds a clone that is not finished.
fn is_unfinished(ledger: &Ledger, target: &str) -> (r: bool)
    requires
        ledger.wf(),
    ensures
        r == match position(ledger.entries@, target@) {
            Some(i) => clone_at(ledger.entries@[i], None),
            None => false,
        },
{
    match ledger.find(target) {
        Some(i) => ledger.entries[i].written.same(&clone_written(None)),
        None => false,
    }
}

/// Whether `after` is `before` with a clone begun.
pub open spec fn begun(
    before: Seq<LedgerEntry>,
    op: Op,
    created: Seq<Seq<char>>,
    after: Seq<LedgerEntry>,
) -> bool {
    exists|entry: LedgerEntry|
        is_clone_entry(entry, op.target, None, Mode { bits: 0o755 }, created)
            && #[trigger] recorded(before, entry, after)
}

/// Whether `after` is `before` with a clone finished.
pub open spec fn done(
    before: Seq<LedgerEntry>,
    op: Op,
    mode: Mode,
    after: Seq<LedgerEntry>,
) -> bool {
    exists|entry: LedgerEntry|
        is_clone_entry(entry, op.target, Some(op.rev@), mode, Seq::empty())
            && #[trigger] recorded(before, entry, after)
}

/// Whether what came of making directories is said of each, up to the first
/// that failed.
pub open spec fn tells(created: Seq<String>, results: Seq<Mkdir>) -> bool {
    results.len() == created.len() || (results.len() < created.len() && results.len() > 0
        && results.last() is Failed)
}

/// Whether one of some directories could not be made.
pub open spec fn one_failed(results: Seq<Mkdir>) -> bool {
    exists|i: int| 0 <= i < results.len() && (#[trigger] results[i]) is Failed
}

/// A ledger that recorded a clone holds it.
proof fn lemma_recorded_clone(
    before: Seq<LedgerEntry>,
    entry: LedgerEntry,
    after: Seq<LedgerEntry>,
    rev: Option<Seq<char>>,
)
    requires
        recorded(before, entry, after),
        entry.mechanism is Clone,
        clone_at(entry, rev),
    ensures
        holds_clone(after, entry.path@, rev),
{
    match position(before, entry.path@) {
        Some(i) => {
            assert(is_entry(before, entry.path@, i));
            assert(is_entry(after, entry.path@, i));
        },
        None => {
            let k = choose|k: int|
                0 <= k <= before.len() && after == #[trigger] before.insert(k, entry);
            assert(is_entry(after, entry.path@, k));
        },
    }
}

impl Progress {
    /// What holds of a clone between any two calls.
    pub open spec fn wf(self, ledger: Ledger, home: Seq<char>) -> bool {
        let target = self.op.target@;
        let entries = ledger.entries@;
        let held = self.held@.entries@;
        &&& ledger.wf()
        &&& self.held@.wf()
        &&& self.op.work is Clone
        &&& self.before is Some ==> self.before->0.path@ == target
        &&& match self.stage {
            Stage::Look | Stage::Remove | Stage::Parents | Stage::Back => entries == held
                && self.saved@ == held,
            Stage::Begin => self.has_begun(entries, home) && self.saved@ == held,
            Stage::Make | Stage::Fill(_) | Stage::Mode | Stage::Discard => self.has_begun(
                entries,
                home,
            ) && self.saved@ == entries,
            Stage::Finish => holds_clone(entries, target, Some(self.op.rev@)) && holds_clone(
                self.saved@,
                target,
                None,
            ),
            Stage::Prune | Stage::Undo => same_entries(entries, held) && holds_clone(
                self.saved@,
                target,
                None,
            ),
            Stage::Over => self.saved@ == entries && if self.note is Some {
                same_entries(entries, held)
            } else {
                holds_clone(entries, target, Some(self.op.rev@))
            },
        }
        &&& self.stage is Back || self.stage is Discard || self.stage is Prune || self.stage is Undo
            ==> self.note is Some
        &&& self.stage is Look || self.stage is Remove || self.stage is Parents ==> self.note is None
            && self.made@.len() == 0
        &&& self.stage is Begin || self.stage is Make || self.stage is Fill || self.stage is Mode
            || self.stage is Finish ==> self.note is None
    }

    /// Whether a ledger is the one the clone was begun over, with the clone
    /// begun and not finished.
    pub open spec fn has_begun(self, entries: Seq<LedgerEntry>, home: Seq<char>) -> bool {
        &&& begun(self.held@.entries@, self.op, portable_dirs(self.made@, home), entries)
        &&& was(self.before, self.held@.entries@, self.op.target@)
        &&& holds_clone(entries, self.op.target@, None)
    }

    /// Whether `ask` is what a clone at this stage asks for.
    pub open spec fn asks(self, ask: Ask) -> bool {
        match self.stage {
            Stage::Look => ask matches Ask::Look(path) && path@ == self.op.dest@,
            Stage::Remove => ask matches Ask::Remove(path) && path@ == self.op.dest@,
            Stage::Parents => ask matches Ask::Parents(dirs) && strings(dirs@) == strings(
                self.op.work->created_dirs@,
            ).reverse(),
            Stage::Back => ask matches Ask::Prune(dirs) && dirs@ == self.made@,
            Stage::Begin => ask is Save,
            Stage::Make => ask matches Ask::Make(path) && path@ == self.op.dest@,
            Stage::Fill(step) => ask matches Ask::Git(query) && step.queried(self.op, None, query),
            Stage::Mode => ask matches Ask::Mode(path) && path@ == self.op.dest@,
            Stage::Finish => ask is Save,
            Stage::Discard => ask matches Ask::Discard(path) && path@ == self.op.dest@,
            Stage::Prune => ask matches Ask::Prune(dirs) && dirs@ == self.made@,
            Stage::Undo => ask is Save,
            Stage::Over => match self.note {
                Some(note) => ask matches Ask::Stopped(why) && why@ == note@,
                None => ask is Done,
            },
        }
    }

    /// Whether a report is of what was asked.
    pub open spec fn fits(self, did: Did) -> bool {
        match (self.stage, did) {
            (Stage::Look, Did::Found(_)) => true,
            (Stage::Remove, Did::Removed) => true,
            (Stage::Parents, Did::Parents(results)) => tells(
                self.op.work->created_dirs@,
                results@,
            ),
            (Stage::Back, Did::Pruned) => true,
            (Stage::Begin, Did::Saved) => true,
            (Stage::Make, Did::Made(_)) => true,
            (Stage::Fill(_), Did::Replied(_)) => true,
            (Stage::Mode, Did::Mode(_)) => true,
            (Stage::Finish, Did::Saved) => true,
            (Stage::Discard, Did::Discarded) => true,
            (Stage::Prune, Did::Pruned) => true,
            (Stage::Undo, Did::Saved) => true,
            _ => false,
        }
    }

    /// Whether a clone gives up with this note.
    pub open spec fn gives_up(self, stage: Stage, note: Seq<char>) -> bool {
        self.stage == stage && (self.note matches Some(why) && why@ == note)
    }

    /// What a report leads to: the stage after it, and the ledger.
    pub open spec fn leads(
        self,
        did: Did,
        ledger: Seq<LedgerEntry>,
        home: Seq<char>,
        after: Progress,
        ledger_after: Seq<LedgerEntry>,
    ) -> bool {
        let target = self.op.target@;
        let created = strings(self.op.work->created_dirs@).reverse();
        match (self.stage, did) {
            (Stage::Look, Did::Found(kind)) => {
                let replace = self.op.work->replace;
                let interrupted = match position(ledger, target) {
                    Some(i) => clone_at(ledger[i], None),
                    None => false,
                };
                &&& ledger_after == ledger
                &&& if !replace && kind is Absent {
                    after.stage is Parents
                } else if replace && kind is Dir && interrupted {
                    after.stage is Remove
                } else {
                    after.gives_up(
                        Stage::Over,
                        "is "@ + kind_words(kind)
                            + " now, which is not what bx planned against; bx left it as it is"@,
                    )
                }
            },
            (Stage::Remove, Did::Removed) => ledger_after == ledger && after.stage is Parents,
            (Stage::Parents, Did::Parents(results)) => if one_failed(results@) {
                ledger_after == ledger && exists|i: int|
                    0 <= i < results@.len() && (#[trigger] results@[i] matches Mkdir::Failed(why)
                        && after.gives_up(
                        Stage::Back,
                        portable(created[i], home) + " cannot be created: "@ + why@,
                    )) && strings(after.made@) == by_depth(
                        made_of(created.subrange(0, i), results@),
                    ) && forall|j: int| 0 <= j < i ==> (#[trigger] results@[j]) !is Failed
            } else {
                &&& after.stage is Begin
                &&& strings(after.made@) == by_depth(made_of(created, results@))
                &&& begun(ledger, self.op, portable_dirs(after.made@, home), ledger_after)
            },
            (Stage::Make, Did::Made(result)) => ledger_after == ledger && match result {
                Ok(_) => after.stage == Stage::Fill(Step::Init),
                Err(why) => after.gives_up(Stage::Discard, "cannot be created: "@ + why@),
            },
            (Stage::Fill(step), Did::Replied(reply)) => ledger_after == ledger && exists|go: Go|
                #[trigger] populated(go, self.op.rev@, step, reply) && match go {
                    Go::Ask(next) => after.stage == Stage::Fill(next),
                    Go::Done => after.stage is Mode,
                    Go::Stop(note) => after.gives_up(Stage::Discard, note@),
                },
            (Stage::Mode, Did::Mode(found)) => after.stage is Finish && done(
                ledger,
                self.op,
                match found {
                    Some(mode) => mode,
                    None => Mode { bits: 0o755 },
                },
                ledger_after,
            ),
            (Stage::Discard, Did::Discarded) => {
                let i = position(ledger, target)->0;
                &&& after.stage is Prune
                &&& ledger_after == match self.before {
                    Some(entry) => ledger.update(i, entry),
                    None => ledger.remove(i),
                }
            },
            (Stage::Begin, Did::Saved) => ledger_after == ledger && after.stage is Make,
            (Stage::Finish, Did::Saved) => ledger_after == ledger && after.stage is Over
                && after.note is None,
            (Stage::Prune, Did::Pruned) => ledger_after == ledger && after.stage is Undo,
            _ => ledger_after == ledger && after.stage is Over,
        }
    }

    /// The directories that are to be made, shallowest first.
    fn parents(&self) -> (r: Vec<String>)
        requires
            self.op.work is Clone,
        ensures
            strings(r@) == strings(self.op.work->created_dirs@).reverse(),
    {
        match &self.op.work {
            Work::Clone { created_dirs, .. } => reversed(created_dirs),
            _ => {
                assert(false);
                Vec::new()
            },
        }
    }

    /// What a report makes of a clone and of the ledger, and what it is answered.
    pub open spec fn reports(
        self,
        did: Did,
        ledger: Ledger,
        home: Seq<char>,
        r: Result<Ask, Error>,
        after: Progress,
        ledger_after: Ledger,
    ) -> bool {
        &&& after.op == self.op
        &&& after.held == self.held
        &&& r is Ok <==> self.fits(did)
        &&& match r {
            Ok(ask) => {
                &&& after.asks(ask)
                &&& self.leads(did, ledger.entries@, home, after, ledger_after.entries@)
                &&& after.saved@ == (if did is Saved {
                    ledger.entries@
                } else {
                    self.saved@
                })
                &&& self.note is Some ==> after.note == self.note
                &&& self.stage !is Parents ==> after.made@ == self.made@
                &&& self.stage !is Parents && self.stage !is Discard ==> after.before == self.before
            },
            Err(error) => after == self && ledger_after == ledger && match did {
                Did::Failed(why) => error == why,
                _ => error == Error::Journal(JournalError::OutOfStep),
            },
        }
    }

    fn report(&mut self, did: Did, ledger: &mut Ledger, home: &str) -> (r: Result<Ask, Error>)
        requires
            old(self).wf(*old(ledger), home@),
        ensures
            final(self).wf(*final(ledger), home@),
            old(self).reports(did, *old(ledger), home@, r, *final(self), *final(ledger)),
    {
        if let Did::Failed(error) = did {
            return Err(error);
        }
        if !self.is_asked(&did) {
            return Err(Error::Journal(JournalError::OutOfStep));
        }
        match did {
            Did::Found(kind) => {
                let replace = match &self.op.work {
                    Work::Clone { replace, .. } => *replace,
                    _ => false,
                };
                let interrupted = is_unfinished(ledger, self.op.target.text.as_str());
                match clone_start(replace, &kind, interrupted) {
                    Start::Go { remove } => if remove {
                        self.stage = Stage::Remove;
                        Ok(Ask::Remove(self.op.dest.clone()))
                    } else {
                        self.stage = Stage::Parents;
                        Ok(Ask::Parents(self.parents()))
                    },
                    Start::Stop(note) => {
                        let ask = Ask::Stopped(note.clone());
                        self.note = Some(note);
                        self.stage = Stage::Over;
                        Ok(ask)
                    },
                }
            },
            Did::Removed => {
                self.stage = Stage::Parents;
                Ok(Ask::Parents(self.parents()))
            },
            Did::Parents(results) => self.made_parents(results, ledger, home),
            Did::Made(result) => match result {
                Ok(_) => {
                    let step = Step::Init;
                    let query = step.query(&self.op, None);
                    self.stage = Stage::Fill(step);
                    Ok(Ask::Git(query))
                },
                Err(why) => {
                    self.note = Some("cannot be created: ".to_owned().concat(why.as_str()));
                    self.stage = Stage::Discard;
                    Ok(Ask::Discard(self.op.dest.clone()))
                },
            },
            Did::Replied(reply) => {
                let mut stage = Stage::Over;
                std::mem::swap(&mut self.stage, &mut stage);
                let step = match stage {
                    Stage::Fill(step) => step,
                    _ => {
                        assert(false);
                        Step::Init
                    },
                };
                let ghost asked = step;
                let ghost answer = reply;
                let go = populate(self.op.rev.as_str(), step, reply);
                assert(populated(go, self.op.rev@, asked, answer));
                match go {
                    Go::Ask(next) => {
                        let query = next.query(&self.op, None);
                        self.stage = Stage::Fill(next);
                        Ok(Ask::Git(query))
                    },
                    Go::Done => {
                        self.stage = Stage::Mode;
                        Ok(Ask::Mode(self.op.dest.clone()))
                    },
                    Go::Stop(note) => {
                        self.note = Some(note);
                        self.stage = Stage::Discard;
                        Ok(Ask::Discard(self.op.dest.clone()))
                    },
                }
            },
            Did::Mode(found) => {
                let mode = match found {
                    Some(mode) => mode,
                    None => Mode::default_dir(),
                };
                let ghost before = ledger.entries@;
                record_rev(ledger, &self.op.target, self.op.rev.as_str(), Some(mode));
                proof {
                    let entry = choose|entry: LedgerEntry|
                        is_clone_entry(
                            entry,
                            self.op.target,
                            Some(self.op.rev@),
                            mode,
                            Seq::empty(),
                        ) && #[trigger] recorded(before, entry, ledger.entries@);
                    lemma_recorded_clone(before, entry, ledger.entries@, Some(self.op.rev@));
                }
                self.stage = Stage::Finish;
                Ok(Ask::Save)
            },
            Did::Discarded => {
                let ghost begun_over = self.held@;
                let ghost entries = ledger.entries@;
                let ghost whole = *ledger;
                let before = self.before.take();
                proof {
                    let i = choose|i: int| is_entry(entries, self.op.target@, i);
                    assert(is_entry(entries, self.op.target@, i));
                    whole.lemma_position(self.op.target@, i);
                }
                undo_clone(ledger, &self.op.target, before);
                proof {
                    let entry = choose|entry: LedgerEntry|
                        is_clone_entry(
                            entry,
                            self.op.target,
                            None,
                            Mode { bits: 0o755 },
                            portable_dirs(self.made@, home@),
                        ) && #[trigger] recorded(begun_over.entries@, entry, entries);
                    a_failed_clone_leaves_the_ledger_as_it_was(
                        begun_over,
                        entry,
                        whole,
                        before,
                        ledger.entries@,
                    );
                }
                self.stage = Stage::Prune;
                Ok(Ask::Prune(copy_texts(&self.made)))
            },
            Did::Pruned => {
                let undoing = match &self.stage {
                    Stage::Prune => true,
                    _ => false,
                };
                if undoing {
                    self.stage = Stage::Undo;
                    return Ok(Ask::Save);
                }
                self.stage = Stage::Over;
                Ok(self.over())
            },
            Did::Saved => {
                self.saved = Ghost(ledger.entries@);
                let beginning = match &self.stage {
                    Stage::Begin => true,
                    _ => false,
                };
                if beginning {
                    self.stage = Stage::Make;
                    return Ok(Ask::Make(self.op.dest.clone()));
                }
                self.stage = Stage::Over;
                Ok(self.over())
            },
            Did::Failed(error) => {
                assert(false);
                Err(error)
            },
        }
    }

    /// What a clone that is over asks for.
    fn over(&self) -> (r: Ask)
        requires
            self.stage is Over,
        ensures
            self.asks(r),
    {
        match &self.note {
            Some(note) => Ask::Stopped(note.clone()),
            None => Ask::Done,
        }
    }

    /// Whether a report is of what was asked.
    fn is_asked(&self, did: &Did) -> (r: bool)
        requires
            self.op.work is Clone,
        ensures
            r == self.fits(*did),
    {
        match (&self.stage, did) {
            (Stage::Look, Did::Found(_)) => true,
            (Stage::Remove, Did::Removed) => true,
            (Stage::Parents, Did::Parents(results)) => match &self.op.work {
                Work::Clone { created_dirs, .. } => if results.len() == created_dirs.len() {
                    true
                } else if results.len() < created_dirs.len() && results.len() > 0 {
                    match &results[results.len() - 1] {
                        Mkdir::Failed(_) => true,
                        _ => false,
                    }
                } else {
                    false
                },
                _ => false,
            },
            (Stage::Back, Did::Pruned) => true,
            (Stage::Begin, Did::Saved) => true,
            (Stage::Make, Did::Made(_)) => true,
            (Stage::Fill(_), Did::Replied(_)) => true,
            (Stage::Mode, Did::Mode(_)) => true,
            (Stage::Finish, Did::Saved) => true,
            (Stage::Discard, Did::Discarded) => true,
            (Stage::Prune, Did::Pruned) => true,
            (Stage::Undo, Did::Saved) => true,
            _ => false,
        }
    }

    /// The directories on the way were made, or one failed.
    fn made_parents(&mut self, results: Vec<Mkdir>, ledger: &mut Ledger, home: &str) -> (r: Result<
        Ask,
        Error,
    >)
        requires
            old(self).wf(*old(ledger), home@),
            old(self).fits(Did::Parents(results)),
        ensures
            final(self).wf(*final(ledger), home@),
            final(self).op == old(self).op,
            final(self).held == old(self).held,
            final(self).saved == old(self).saved,
            old(self).note is Some ==> final(self).note == old(self).note,
            r matches Ok(ask) && final(self).asks(ask),
            old(self).leads(
                Did::Parents(results),
                old(ledger).entries@,
                home@,
                *final(self),
                final(ledger).entries@,
            ),
    {
        let created = match &self.op.work {
            Work::Clone { created_dirs, .. } => copy_texts(created_dirs),
            _ => {
                assert(false);
                Vec::new()
            },
        };
        match made_dirs(&created, &results, home) {
            Err((made, note)) => {
                let ask = Ask::Prune(copy_texts(&made));
                self.made = made;
                self.note = Some(note);
                self.stage = Stage::Back;
                Ok(ask)
            },
            Ok(made) => {
                let ghost before = ledger.entries@;
                let claims = portables(&made, home);
                self.before = begin_clone(ledger, &self.op.target, claims);
                self.made = made;
                self.stage = Stage::Begin;
                proof {
                    let entry = choose|entry: LedgerEntry|
                        is_clone_entry(
                            entry,
                            self.op.target,
                            None,
                            Mode { bits: 0o755 },
                            texts(claims@),
                        ) && #[trigger] recorded(before, entry, ledger.entries@);
                    lemma_recorded_clone(before, entry, ledger.entries@, None);
                }
                Ok(Ask::Save)
            },
        }
    }
}

/// The cloning of one external.
pub struct Cloning {
    progress: Progress,
}

impl View for Cloning {
    type V = Progress;

    closed spec fn view(&self) -> Progress {
        self.progress
    }
}

impl Cloning {
    /// Start a clone: what is at the path is looked at first.
    pub fn start(op: Op, ledger: &Ledger) -> (r: (Cloning, Ask))
        requires
            op.work is Clone,
            ledger.wf(),
        ensures
            r.0@.stage is Look,
            r.0@.op == op,
            r.0@.held@ == *ledger,
            r.0@.asks(r.1),
            forall|home: Seq<char>| #[trigger] r.0@.wf(*ledger, home),
    {
        let ask = Ask::Look(op.dest.clone());
        let progress = Progress {
            op,
            stage: Stage::Look,
            made: Vec::new(),
            before: None,
            note: None,
            held: Ghost(*ledger),
            saved: Ghost(ledger.entries@),
        };
        (Cloning { progress }, ask)
    }

    /// Report what came of the last thing asked for, and get the next.
    ///
    /// # Errors
    ///
    /// What the program reported as failed, and a step out of order for a report
    /// that is not of what was asked. Nothing moves then: what was saved before
    /// stands, and says truthfully what is on disk.
    pub fn report(&mut self, did: Did, ledger: &mut Ledger, home: &str) -> (r: Result<Ask, Error>)
        requires
            old(self)@.wf(*old(ledger), home@),
        ensures
            final(self)@.wf(*final(ledger), home@),
            old(self)@.reports(did, *old(ledger), home@, r, final(self)@, *final(ledger)),
    {
        self.progress.report(did, ledger, home)
    }
}

/// Nothing is put at the path, and git is asked nothing there, before the saved
/// ledger says that the directory is bx's and not finished.
pub proof fn nothing_is_cloned_before_it_is_recorded_as_unfinished(
    cloning: Progress,
    ledger: Ledger,
    home: Seq<char>,
    ask: Ask,
)
    requires
        cloning.wf(ledger, home),
        cloning.asks(ask),
        ask is Make || ask is Git || ask is Discard,
    ensures
        holds_clone(cloning.saved@, cloning.op.target@, None),
{
}

/// A clone is done only once the saved ledger records it at its commit.
pub proof fn a_done_clone_is_recorded_at_its_commit(
    cloning: Progress,
    ledger: Ledger,
    home: Seq<char>,
    ask: Ask,
)
    requires
        cloning.wf(ledger, home),
        cloning.asks(ask),
        ask is Done,
    ensures
        holds_clone(cloning.saved@, cloning.op.target@, Some(cloning.op.rev@)),
{
}

/// A clone that stopped leaves the saved ledger saying what it said before.
pub proof fn a_stopped_clone_leaves_the_ledger_as_it_was(
    cloning: Progress,
    ledger: Ledger,
    home: Seq<char>,
    ask: Ask,
)
    requires
        cloning.wf(ledger, home),
        cloning.asks(ask),
        ask is Stopped,
    ensures
        same_entries(cloning.saved@, cloning.held@.entries@),
{
}

/// Whenever a clone is cut off, the saved ledger says what it said before, or
/// that the directory is bx's and not finished; only a clone that is over can
/// have left it saying that it is finished.
pub proof fn a_clone_cut_off_is_never_recorded_as_finished(
    cloning: Progress,
    ledger: Ledger,
    home: Seq<char>,
)
    requires
        cloning.wf(ledger, home),
        cloning.stage !is Over,
    ensures
        cloning.saved@ == cloning.held@.entries@ || holds_clone(
            cloning.saved@,
            cloning.op.target@,
            None,
        ),
{
}

/// A clone is begun only over what was planned against: over nothing, or, to
/// replace one, over the directory of a clone that the ledger says is not
/// finished. Anything else stops it, and is left as it is.
pub proof fn a_clone_is_begun_only_over_what_was_planned(
    cloning: Progress,
    kind: Kind,
    ledger: Ledger,
    home: Seq<char>,
    r: Result<Ask, Error>,
    after: Progress,
    ledger_after: Ledger,
    i: int,
)
    requires
        cloning.wf(ledger, home),
        cloning.stage is Look,
        cloning.reports(Did::Found(kind), ledger, home, r, after, ledger_after),
    ensures
        r is Ok,
        ledger_after.entries@ == ledger.entries@,
        ({
            let replace = cloning.op.work->replace;
            let held = 0 <= i < ledger.entries@.len() && ledger.entries@[i].path@
                == cloning.op.target@;
            let unfinished = ledger.entries@[i].written@ == clone_digest(None);
            let ask = r->Ok_0;
            &&& !replace && kind is Absent ==> ask is Parents
            &&& replace && kind is Dir && held && unfinished ==> (ask matches Ask::Remove(path)
                && path@ == cloning.op.dest@)
            &&& (!replace && kind !is Absent) || (replace && kind !is Dir) || (replace && held
                && !unfinished) ==> (ask matches Ask::Stopped(why) && why@ == "is "@ + kind_words(
                kind,
            ) + " now, which is not what bx planned against; bx left it as it is"@)
            &&& replace && (forall|j: int|
                0 <= j < ledger.entries@.len() ==> (#[trigger] ledger.entries@[j]).path@
                    != cloning.op.target@) ==> ask is Stopped
        }),
{
    let entries = ledger.entries@;
    let target = cloning.op.target@;
    if 0 <= i < entries.len() && entries[i].path@ == target {
        assert(is_entry(entries, target, i));
        ledger.lemma_position(target, i);
    }
    if let Some(k) = position(entries, target) {
        assert(is_entry(entries, target, k));
    }
}

/// A clone asks for one thing after another: what stands in its way is removed,
/// the directories on the way made, the ledger saved, the directory made and
/// filled, its mode read, and the ledger saved again. One that could not be made
/// or filled is discarded, the directories that were made on the way are
/// removed, and the ledger is saved as it was.
pub proof fn a_clone_goes_on_step_by_step(
    cloning: Progress,
    did: Did,
    ledger: Ledger,
    home: Seq<char>,
    r: Result<Ask, Error>,
    after: Progress,
    ledger_after: Ledger,
)
    requires
        cloning.wf(ledger, home),
        cloning.reports(did, ledger, home, r, after, ledger_after),
        r is Ok,
    ensures
        ({
            let ask = r->Ok_0;
            let dest = cloning.op.dest@;
            let failed = did matches Did::Parents(results) && exists|k: int|
                0 <= k < results@.len() && (#[trigger] results@[k]) is Failed;
            &&& cloning.stage is Remove ==> did is Removed && (ask matches Ask::Parents(dirs)
                && strings(dirs@) == strings(cloning.op.work->created_dirs@).reverse())
            &&& cloning.stage is Parents && !failed ==> did is Parents && ask is Save
            &&& cloning.stage is Parents && failed ==> (ask matches Ask::Prune(dirs) && dirs@
                == after.made@)
            &&& cloning.stage is Back ==> did is Pruned && ask is Stopped
            &&& cloning.stage is Begin ==> did is Saved && (ask matches Ask::Make(path) && path@
                == dest)
            &&& cloning.stage is Make ==> did is Made
            &&& cloning.stage is Make && did->Made_0 is Ok ==> after.stage == Stage::Fill(Step::Init)
                && ask is Git
            &&& cloning.stage is Make && did->Made_0 is Err ==> (ask matches Ask::Discard(path)
                && path@ == dest)
            &&& cloning.stage is Fill ==> did is Replied && (ask is Git || ask is Mode
                || ask is Discard)
            &&& cloning.stage is Mode ==> did is Mode && ask is Save
            &&& cloning.stage is Finish ==> did is Saved && ask is Done
            &&& cloning.stage is Discard ==> did is Discarded && (ask matches Ask::Prune(dirs)
                && dirs@ == cloning.made@)
            &&& cloning.stage is Prune ==> did is Pruned && ask is Save
            &&& cloning.stage is Undo ==> did is Saved && (ask matches Ask::Stopped(why) && why@
                == cloning.note->0@)
        }),
{
}

/// A clone that is finished is recorded at its commit, with the mode that was
/// read of its directory, or the usual one where none could be read.
pub proof fn a_finished_clone_is_recorded_with_its_mode(
    cloning: Progress,
    found: Option<Mode>,
    ledger: Ledger,
    home: Seq<char>,
    r: Result<Ask, Error>,
    after: Progress,
    ledger_after: Ledger,
) -> (i: int)
    requires
        cloning.wf(ledger, home),
        after.wf(ledger_after, home),
        cloning.stage is Mode,
        cloning.reports(Did::Mode(found), ledger, home, r, after, ledger_after),
    ensures
        r is Ok,
        0 <= i < ledger_after.entries@.len(),
        ledger_after.entries@[i].path@ == cloning.op.target@,
        ledger_after.entries@[i].written@ == clone_digest(Some(cloning.op.rev@)),
        ledger_after.entries@[i].mechanism is Clone,
        found matches Some(mode) ==> ledger_after.entries@[i].mode == mode,
        found is None ==> ledger_after.entries@[i].mode.bits == 0o755,
{
    let mode = match found {
        Some(mode) => mode,
        None => Mode { bits: 0o755 },
    };
    let entry = choose|entry: LedgerEntry|
        is_clone_entry(entry, cloning.op.target, Some(cloning.op.rev@), mode, Seq::empty())
            && #[trigger] recorded(ledger.entries@, entry, ledger_after.entries@);
    what_is_recorded_is_held(ledger, entry, ledger_after, Seq::empty())
}

/// A clone that is begun is recorded as not finished, at the usual mode, with a
/// claim on every directory that was made for it.
pub proof fn a_begun_clone_is_recorded_as_unfinished(
    cloning: Progress,
    did: Did,
    ledger: Ledger,
    home: Seq<char>,
    r: Result<Ask, Error>,
    after: Progress,
    ledger_after: Ledger,
    n: int,
) -> (i: int)
    requires
        cloning.wf(ledger, home),
        after.wf(ledger_after, home),
        cloning.stage is Parents,
        cloning.reports(did, ledger, home, r, after, ledger_after),
        r is Ok,
        r->Ok_0 is Save,
    ensures
        0 <= i < ledger_after.entries@.len(),
        ledger_after.entries@[i].path@ == cloning.op.target@,
        ledger_after.entries@[i].written@ == clone_digest(None),
        ledger_after.entries@[i].mechanism is Clone,
        ledger_after.entries@[i].mode.bits == 0o755,
        0 <= n < after.made@.len() ==> texts(ledger_after.entries@[i].created_dirs@).contains(
            portable(after.made@[n]@, home),
        ),
{
    let created = portable_dirs(after.made@, home);
    let entry = choose|entry: LedgerEntry|
        is_clone_entry(entry, cloning.op.target, None, Mode { bits: 0o755 }, created)
            && #[trigger] recorded(ledger.entries@, entry, ledger_after.entries@);
    let claim = portable(after.made@[n]@, home);
    if 0 <= n < after.made@.len() {
        assert(texts(entry.created_dirs@)[n] == claim);
    }
    let i = what_is_recorded_is_held(ledger, entry, ledger_after, claim);
    let entries = ledger.entries@;
    if let Some(k) = position(entries, entry.path@) {
        assert(is_entry(entries, entry.path@, k));
        assert(entries[k].path@ == entry.path@);
    } else {
        assert forall|j: int| 0 <= j < entries.len() implies (#[trigger] entries[j]).path@
            != entry.path@ by {
            assert(!is_entry(entries, entry.path@, j));
        }
    }
    i
}

/// A report that is not of what was asked moves nothing: the clone, what was
/// saved and the ledger stay as they were.
pub proof fn a_report_out_of_order_moves_no_clone(
    cloning: Progress,
    did: Did,
    ledger: Ledger,
    home: Seq<char>,
    r: Result<Ask, Error>,
    after: Progress,
    ledger_after: Ledger,
)
    requires
        cloning.reports(did, ledger, home, r, after, ledger_after),
    ensures
        did is Failed || cloning.stage is Over ==> r is Err,
        r is Err ==> after == cloning && ledger_after == ledger,
        r is Ok ==> after.saved@ == (if did is Saved {
            ledger.entries@
        } else {
            cloning.saved@
        }),
{
}

/// A directory that could not be made stops a clone, and it says which one and
/// why: the first that failed.
pub proof fn a_directory_that_cannot_be_made_stops_a_clone(
    cloning: Progress,
    results: Vec<Mkdir>,
    ledger: Ledger,
    home: Seq<char>,
    r: Result<Ask, Error>,
    after: Progress,
    ledger_after: Ledger,
    k: int,
    why: String,
)
    requires
        cloning.wf(ledger, home),
        cloning.stage is Parents,
        cloning.reports(Did::Parents(results), ledger, home, r, after, ledger_after),
        r is Ok,
        0 <= k < results@.len(),
        results@[k] == Mkdir::Failed(why),
        forall|j: int| 0 <= j < k ==> (#[trigger] results@[j]) !is Failed,
    ensures
        ledger_after.entries@ == ledger.entries@,
        after.note is Some,
        after.note->0@ == portable(
            strings(cloning.op.work->created_dirs@).reverse()[k],
            home,
        ) + " cannot be created: "@ + why@,
{
    assert(one_failed(results@));
    let created = strings(cloning.op.work->created_dirs@).reverse();
    let i = choose|i: int|
        0 <= i < results@.len() && (#[trigger] results@[i] matches Mkdir::Failed(why)
            && after.gives_up(
            Stage::Back,
            portable(created[i], home) + " cannot be created: "@ + why@,
        )) && strings(after.made@) == by_depth(made_of(created.subrange(0, i), results@))
            && forall|j: int| 0 <= j < i ==> (#[trigger] results@[j]) !is Failed;
    assert(results@[i] is Failed);
    if i < k {
        assert(results@[i] !is Failed);
    }
    if k < i {
        assert(results@[k] !is Failed);
    }
}

proof fn lemma_made_holds(dirs: Seq<Seq<char>>, results: Seq<Mkdir>, dir: Seq<char>)
    ensures
        made_of(dirs, results).contains(dir) <==> exists|k: int|
            0 <= k < dirs.len() && #[trigger] dirs[k] == dir && results[k] is Made,
    decreases dirs.len(),
{
    if dirs.len() > 0 {
        let some = dirs.drop_last();
        let n = dirs.len() - 1;
        let before = made_of(some, results);
        let all = made_of(dirs, results);
        lemma_made_holds(some, results, dir);
        if exists|k: int| 0 <= k < dirs.len() && #[trigger] dirs[k] == dir && results[k] is Made {
            let k = choose|k: int|
                0 <= k < dirs.len() && #[trigger] dirs[k] == dir && results[k] is Made;
            if k < n {
                assert(some[k] == dir);
                let at = before.index_of(dir);
                assert(all[at] == dir);
            } else {
                assert(all[before.len() as int] == dir);
            }
        }
        if all.contains(dir) {
            let at = all.index_of(dir);
            if at < before.len() {
                assert(before[at] == dir);
                let k = choose|k: int|
                    0 <= k < some.len() && #[trigger] some[k] == dir && results[k] is Made;
                assert(dirs[k] == dir);
            } else {
                assert(dirs[n] == dir);
            }
        }
    }
}

/// What a clone takes back if it fails is what was made for it: of the
/// directories on the way, shallowest first, those that were made before the
/// first that failed, and no others, deepest first.
pub proof fn only_what_was_made_for_a_clone_is_taken_back(
    cloning: Progress,
    results: Vec<Mkdir>,
    ledger: Ledger,
    home: Seq<char>,
    r: Result<Ask, Error>,
    after: Progress,
    ledger_after: Ledger,
    dir: Seq<char>,
)
    requires
        cloning.wf(ledger, home),
        cloning.stage is Parents,
        cloning.reports(Did::Parents(results), ledger, home, r, after, ledger_after),
        r is Ok,
    ensures
        ({
            let created = strings(cloning.op.work->created_dirs@).reverse();
            &&& strings(after.made@).contains(dir) <==> exists|k: int|
                0 <= k < created.len() && k < results@.len() && #[trigger] created[k] == dir
                    && results@[k] is Made && forall|j: int|
                    0 <= j < k ==> (#[trigger] results@[j]) !is Failed
            &&& forall|j: int, k: int|
                0 <= j < k < after.made@.len() ==> components(
                    (#[trigger] after.made@[j])@,
                ).len() >= components((#[trigger] after.made@[k])@).len()
        }),
{
    let created = strings(cloning.op.work->created_dirs@).reverse();
    let n = if one_failed(results@) {
        choose|i: int|
            0 <= i < results@.len() && (#[trigger] results@[i] matches Mkdir::Failed(why)
                && after.gives_up(
                Stage::Back,
                portable(created[i], home) + " cannot be created: "@ + why@,
            )) && strings(after.made@) == by_depth(made_of(created.subrange(0, i), results@))
                && forall|j: int| 0 <= j < i ==> (#[trigger] results@[j]) !is Failed
    } else {
        created.len() as int
    };
    assert(created.subrange(0, created.len() as int) =~= created);
    let some = created.subrange(0, n);
    let made = made_of(some, results@);
    assert(strings(after.made@) == by_depth(made));
    deepest_comes_first(made);
    by_depth(made).to_multiset_ensures();
    made.to_multiset_ensures();
    assert(by_depth(made).contains(dir) <==> made.contains(dir)) by {
        assert(by_depth(made).to_multiset().count(dir) == made.to_multiset().count(dir));
    }
    lemma_made_holds(some, results@, dir);
    if made.contains(dir) {
        let k = choose|k: int| 0 <= k < some.len() && #[trigger] some[k] == dir && results@[k] is Made;
        assert(created[k] == dir);
    }
    if exists|k: int|
        0 <= k < created.len() && k < results@.len() && #[trigger] created[k] == dir
            && results@[k] is Made && forall|j: int|
            0 <= j < k ==> (#[trigger] results@[j]) !is Failed {
        let k = choose|k: int|
            0 <= k < created.len() && k < results@.len() && #[trigger] created[k] == dir
                && results@[k] is Made && forall|j: int|
                0 <= j < k ==> (#[trigger] results@[j]) !is Failed;
        if n < k {
            assert(results@[n] !is Failed);
        }
        assert(some[k] == dir);
    }
    assert forall|j: int, k: int| 0 <= j < k < after.made@.len() implies components(
        (#[trigger] after.made@[j])@,
    ).len() >= components((#[trigger] after.made@[k])@).len() by {
        assert(strings(after.made@)[j] == by_depth(made)[j]);
        assert(strings(after.made@)[k] == by_depth(made)[k]);
    }
}

} // verus!
