//! The session every write bx makes goes through, and its order.
//!
//! The destination of a write is looked at; the write is staged beside it and
//! filled; the bytes it will displace are stored; the intent is appended and
//! made durable; **only then**, and once the destination was looked at again, is
//! it published; then the ledger is told, and a completion is appended. At every
//! instant the journal describes, durably, a superset of the destinations that
//! may have been touched. A directory goes the same way: what is there is looked
//! at, the intent is made durable, and only then is it made or set.
//!
//! The session decides and the program acts: each call hands out the one thing
//! to do next, and the program reports what came of it. The first report of a
//! failure *poisons* the session: everything later is refused, and the journal
//! stays for recovery to roll back.

use crate::digest::sha256_of;
use crate::fs::{Kind, Mode, Observed};
use crate::journal::believe::{
    a_longer_journal_is_believed, foreign, misplacement, portable_against, refused,
    scope_is_portable, staged_beside, stray, stray_created_dir, written_before,
};
use crate::journal::claims::{a_hand_off_keeps_every_entry, hand_off_claims, handed, prunable, prune_claims, taken};
use crate::journal::error::Error;
use crate::journal::files::{is_prior, prior_of};
use crate::journal::frame::{journal_bytes, NONCE};
use crate::journal::load::{
    a_journal_is_read_back, decodes, encodings, verdict, Loaded, Verdict,
};
use crate::journal::record::{Begin, Done, End, Intent, Record, SessionKind, Written};
use crate::paths::{
    absolute, beneath, beside, components, file_name_of, path_is, path_within, portable, rendered,
    same_path, to_portable, within,
};
use crate::state::{
    a_dropped_target_leaves_the_others_theirs, as_written, is_as_written, is_entry, position,
    recorded, texts, the_first_prior_is_kept, what_is_recorded_is_held, ContentHash, Ledger,
    LedgerEntry, Mechanism, Portable, Prior,
};
use crate::text::{begins_with, same_text, strings};
use vstd::prelude::*;

verus! {

/// What a caller asks a session to make true at one destination.
#[derive(Debug, PartialEq, Eq)]
pub struct Request {
    /// The target, home-relative. The ledger's key.
    pub target: Portable,
    /// Where it goes, rendered absolute.
    pub dest: String,
    /// What should be there afterwards.
    pub content: Content,
    /// The mode the content is written at, already resolved. Ignored for
    /// [`Content::Absent`].
    pub mode: Mode,
    /// Whether bx owns the result.
    pub ownership: Ownership,
}

/// What a request leaves at the destination.
#[derive(Debug, PartialEq, Eq)]
pub enum Content {
    /// These bytes, at [`Request::mode`].
    Bytes {
        /// The whole content.
        bytes: Vec<u8>,
        /// What was observed at the destination when the bytes were compared
        /// with it. The write is staged against it.
        planned: Observed,
    },
    /// No file at all.
    ///
    /// The destination is unlinked, and when the session finishes
    /// `created_dirs` are removed, deepest first, while they are empty and no
    /// entry the ledger still holds names them. Absence is not emptiness: a file
    /// bx created is removed, never truncated.
    Absent {
        /// Directories bx created for the target, deepest first.
        created_dirs: Vec<String>,
        /// What was observed at the destination when the removal was decided.
        planned: Observed,
    },
    /// A directory, at [`Request::mode`]: made where nothing is, and set to the
    /// mode where it is there. What is inside it is not touched.
    Dir {
        /// What was observed at the destination when the directory was decided.
        planned: Observed,
    },
}

/// Whether bx owns what the write leaves behind.
#[derive(Debug, PartialEq, Eq)]
pub enum Ownership {
    /// bx manages the target from now on, attached this way.
    Owned(Mechanism),
    /// bx is handing the target back: the restore half of `bx rm`.
    Released,
}

/// Where a session is.
#[derive(Clone, Copy, Debug, PartialEq, Eq, Structural)]
pub enum Step {
    /// The journal is being created, whole, with its header.
    Create,
    /// No write is in flight.
    Idle,
    /// A write's temporary file is being made.
    Stage,
    /// Its content is being written to the temporary file.
    Fill,
    /// What the write displaces is being stored.
    Store,
    /// The write's intent is being appended.
    Intend,
    /// The temporary file is being renamed into place, or the directory made or
    /// set to its mode.
    Publish,
    /// The ledger is being told.
    Record,
    /// The write's, or the removal's, completion is being appended.
    Complete,
    /// The destination of a directory is being looked at, and the way to it.
    Survey,
    /// The destination of a file or of a removal is being looked at.
    Look,
    /// What the removal displaces is being stored.
    Keep,
    /// The removal's intent is being appended.
    Announce,
    /// The destination is being looked at for the last time before it is
    /// touched.
    LookAgain,
    /// The destination is being unlinked.
    Unlink,
    /// The session's end is being appended.
    End,
    /// Claimed directories are being removed where empty.
    Prune,
    /// What of the claimed directories still stands is being looked at.
    Settle,
    /// The ledger is being saved.
    Save,
    /// The journal is being unlinked.
    Clear,
    /// The session is over.
    Finished,
}

/// What the program is to do next.
#[derive(Debug, PartialEq, Eq)]
pub enum Ask {
    /// Create the journal with this header, whole, through a rename.
    Create(Record),
    /// Nothing: the write is complete, and another may be applied.
    Nothing,
    /// Make a temporary file beside the destination, at the write's mode.
    Stage,
    /// Write these bytes to it and make them durable.
    Fill(Vec<u8>),
    /// Store what the destination holds, which is this, durably.
    Store(Prior),
    /// Append this record and make it durable.
    Append(Record),
    /// Rename the temporary file into place.
    Publish,
    /// Look at the destination, and for the directories above it that are not
    /// there.
    Survey,
    /// Make the directory, and these above it first, or set it to the mode.
    MakeDir(Vec<String>),
    /// Tell the ledger.
    Record,
    /// Look at the destination.
    Look,
    /// Unlink the destination.
    Unlink,
    /// Remove these directories, in this order, each where it is empty.
    Prune(Vec<String>),
    /// Say which of these still stand as directories.
    Settle(Vec<String>),
    /// Save the ledger.
    Save,
    /// Unlink the journal.
    Clear,
    /// Nothing: the session is over, with this many writes.
    Finished(usize),
}

/// What the program did.
#[derive(Debug, PartialEq, Eq)]
pub enum Did {
    /// It created the journal.
    Created,
    /// It staged, here, and made these directories on the way, deepest first.
    Staged { temp: String, created_dirs: Vec<String> },
    /// This is what is there, and these above it are not, deepest first.
    Surveyed { observed: Observed, missing: Vec<String> },
    /// The temporary file holds the bytes, durably.
    Filled,
    /// It stored what was there.
    Stored,
    /// The record is durable.
    Appended,
    /// The destination is replaced.
    Published,
    /// The ledger takes the entry.
    Recorded,
    /// This is what is there.
    Looked(Observed),
    /// The destination is gone.
    Unlinked,
    /// Every directory was tried.
    Pruned,
    /// These still stand.
    Standing(Vec<String>),
    /// The ledger is saved.
    Saved,
    /// The journal is gone.
    Cleared,
    /// It could not, and why.
    Failed(Error),
}

/// A write or a removal in flight.
#[derive(Debug, PartialEq, Eq)]
pub struct Pending {
    pub target: Portable,
    pub dest: String,
    pub mode: Mode,
    pub ownership: Ownership,
    pub planned: Observed,
    /// Whether it is a directory that is written.
    pub dir: bool,
    pub temp: Option<String>,
    pub created_dirs: Vec<String>,
    /// The bytes of a write, until they are handed out.
    pub bytes: Option<Vec<u8>>,
    /// The digest of the bytes of a write.
    pub digest: Option<ContentHash>,
    /// What the write or the removal displaces, once it was looked at.
    pub seen: Option<Observed>,
}

/// The course of a session: everything it holds.
pub struct Course {
    /// The journal's path.
    pub path: String,
    /// The home the session's paths are rendered against.
    pub home: String,
    /// The ledger as this session has it so far.
    pub ledger: Ledger,
    /// How many writes the session has completed.
    pub written: usize,
    /// Set by the first write that fails.
    pub poisoned: bool,
    /// Every target a request has been admitted for.
    pub touched: Vec<Portable>,
    /// Every directory a write in this session created.
    pub created: Vec<String>,
    /// Every directory a target this session removed claimed.
    pub released: Vec<String>,
    /// Every directory claimed by a target this session dropped from the ledger
    /// without announcing a removal.
    pub forgotten: Vec<String>,
    /// Where the session is.
    pub step: Step,
    /// The write in flight.
    pub pending: Option<Pending>,
    /// The records that are durable.
    pub log: Ghost<Seq<Record>>,
    /// The record being made durable.
    pub appending: Ghost<Option<Record>>,
}

/// Whether two observations are of the same thing, or still of nothing.
pub open spec fn unmoved(planned: Observed, now: Observed) -> bool {
    same_path(planned.path@, now.path@) && kind_agrees(planned.kind, now.kind) && planned.stamp
        == now.stamp
}

/// What is said of a destination that moved.
pub open spec fn moved_words(planned: Observed, now: Observed) -> Seq<char> {
    if !same_path(planned.path@, now.path@) {
        "plan observed "@ + planned.path@ + ", not this path"@
    } else if now.stamp is None {
        "it has been removed"@
    } else if planned.stamp is None {
        "nothing was there, and something is now"@
    } else {
        "it has been modified or replaced"@
    }
}

impl Kind {
    /// Whether two kinds are the same.
    pub fn same(&self, other: &Kind) -> (r: bool)
        ensures
            r ==> kind_agrees(*self, *other),
            !r ==> !kind_agrees(*self, *other),
    {
        match (self, other) {
            (Kind::Absent, Kind::Absent) => true,
            (Kind::File, Kind::File) => true,
            (Kind::Dir, Kind::Dir) => true,
            (Kind::Other(a), Kind::Other(b)) => same_text(a.as_str(), b.as_str()),
            _ => false,
        }
    }
}

/// Whether two kinds are the same, by their words where they have any.
pub open spec fn kind_agrees(a: Kind, b: Kind) -> bool {
    match (a, b) {
        (Kind::Absent, Kind::Absent) => true,
        (Kind::File, Kind::File) => true,
        (Kind::Dir, Kind::Dir) => true,
        (Kind::Other(a), Kind::Other(b)) => a@ == b@,
        _ => false,
    }
}

/// Refuse unless `now` is still what `planned` observed: the same path, the
/// same kind and the same stamp, or still nothing at all.
///
/// # Errors
///
/// [`Error::Changed`] naming what moved.
pub fn refuse_moved(planned: &Observed, now: &Observed) -> (r: Result<(), Error>)
    ensures
        match r {
            Ok(_) => unmoved(*planned, *now),
            Err(error) => !unmoved(*planned, *now) && (error matches Error::Changed { path, detail }
                && path@ == now.path@ && detail@ == moved_words(*planned, *now)),
        },
{
    if !path_is(planned.path.as_str(), now.path.as_str()) {
        return Err(
            Error::Changed {
                path: now.path.clone(),
                detail: "plan observed ".to_owned().concat(planned.path.as_str()).concat(
                    ", not this path",
                ),
            },
        );
    }
    if planned.kind.same(&now.kind) && planned.stamp == now.stamp {
        return Ok(());
    }
    let detail = match (planned.stamp, now.stamp) {
        (_, None) => "it has been removed",
        (None, Some(_)) => "nothing was there, and something is now",
        (Some(_), Some(_)) => "it has been modified or replaced",
    };
    Err(Error::Changed { path: now.path.clone(), detail: detail.to_owned() })
}

/// What stands for the content of a directory: the digest of nothing.
pub fn dir_digest() -> (r: ContentHash)
    ensures
        r@ == sha256_of(Seq::empty()),
{
    let none: &[u8] = &[];
    assert(none@ =~= Seq::<u8>::empty());
    ContentHash::of(none)
}

/// Some texts, again.
pub fn copy_texts(texts: &Vec<String>) -> (r: Vec<String>)
    ensures
        r@ == texts@,
{
    let mut out: Vec<String> = Vec::new();
    let mut i: usize = 0;
    while i < texts.len()
        invariant
            i <= texts.len(),
            out@ == texts@.subrange(0, i as int),
        decreases texts.len() - i,
    {
        out.push(texts[i].clone());
        assert(out@ =~= texts@.subrange(0, i + 1));
        i = i + 1;
    }
    assert(out@ =~= texts@);
    out
}

/// Where an entry's claims are, on the account whose home is `home`.
pub open spec fn claims_at(entry: LedgerEntry, home: Seq<char>) -> Seq<Seq<char>> {
    Seq::new(entry.created_dirs@.len(), |i: int| rendered(entry.created_dirs@[i]@, home))
}

/// Adds where an entry's claims are.
fn push_claims(out: &mut Vec<String>, entry: &LedgerEntry, home: &str)
    ensures
        strings(final(out)@) == strings(old(out)@) + claims_at(*entry, home@),
{
    let mut i: usize = 0;
    let ghost claims = claims_at(*entry, home@);
    assert(strings(out@) + claims.subrange(0, 0) =~= strings(out@));
    while i < entry.created_dirs.len()
        invariant
            i <= entry.created_dirs.len(),
            claims == claims_at(*entry, home@),
            strings(out@) == strings(old(out)@) + claims.subrange(0, i as int),
        decreases entry.created_dirs.len() - i,
    {
        let ghost before = out@;
        out.push(entry.created_dirs[i].render(home));
        assert(strings(out@) =~= strings(before).push(claims[i as int]));
        assert(strings(out@) =~= strings(old(out)@) + claims.subrange(0, i + 1));
        i = i + 1;
    }
    assert(claims.subrange(0, claims.len() as int) =~= claims);
}

/// Whether a write or a removal is in flight.
pub open spec fn in_flight(step: Step) -> bool {
    before_intent(step) || after_intent(step)
}

/// Whether a write or a removal is in flight whose intent is not durable.
pub open spec fn before_intent(step: Step) -> bool {
    step == Step::Stage || step == Step::Fill || step == Step::Store || step == Step::Intend || step
        == Step::Survey || step == Step::Look || step == Step::Keep || step == Step::Announce
}

/// Whether a write or a removal is in flight whose intent is durable.
pub open spec fn after_intent(step: Step) -> bool {
    step == Step::Publish || step == Step::Record || step == Step::LookAgain || step == Step::Unlink
        || step == Step::Complete
}

/// Whether the session's end is durable.
pub open spec fn ended(step: Step) -> bool {
    step == Step::Prune || step == Step::Settle || step == Step::Save || step == Step::Clear || step
        == Step::Finished
}

/// Whether an intent announces exactly the write or the removal in flight: its
/// target and its destination, what was seen there, what it leaves there, its
/// temporary file and its directories.
pub open spec fn announces(intent: Intent, pending: Pending) -> bool {
    &&& intent.target@ == pending.target@
    &&& intent.dest@ == pending.dest@
    &&& pending.seen is Some && is_prior(intent.before, pending.seen->0)
    &&& match pending.digest {
        Some(wanted) => intent.after matches Written::Present { digest, mode } && digest@ == wanted@
            && mode == pending.mode,
        None => intent.after is Absent,
    }
    &&& intent.temp is Some == pending.temp is Some
    &&& intent.temp is Some ==> intent.temp->0@ == pending.temp->0@
    &&& intent.created_dirs@ == pending.created_dirs@
}

/// Whether no record announces a write to `target`.
pub open spec fn fresh(log: Seq<Record>, target: Seq<char>) -> bool {
    forall|i: int|
        0 <= i < log.len() && (#[trigger] log[i]) is Intent ==> log[i]->Intent_0.target@ != target
}

/// Whether a target is among those a session wrote.
pub open spec fn among(touched: Seq<Portable>, target: Seq<char>) -> bool {
    exists|t: int| 0 <= t < touched.len() && (#[trigger] touched[t])@ == target
}

/// Some directories, spelled portably.
pub open spec fn portable_dirs(dirs: Seq<String>, home: Seq<char>) -> Seq<Seq<char>> {
    Seq::new(dirs.len(), |i: int| portable(dirs[i]@, home))
}

/// Some directories, spelled portably.
pub fn portables(dirs: &Vec<String>, home: &str) -> (r: Vec<Portable>)
    ensures
        texts(r@) == portable_dirs(dirs@, home@),
{
    let mut out: Vec<Portable> = Vec::new();
    let mut i: usize = 0;
    while i < dirs.len()
        invariant
            i <= dirs.len(),
            out@.len() == i,
            forall|k: int| 0 <= k < i ==> (#[trigger] out@[k])@ == portable(dirs@[k]@, home@),
        decreases dirs.len() - i,
    {
        out.push(Portable { text: to_portable(dirs[i].as_str(), home) });
        i = i + 1;
    }
    assert(texts(out@) =~= portable_dirs(dirs@, home@));
    out
}

/// Whether an entry says that bx owns what a write left.
pub open spec fn owns(entry: LedgerEntry, p: Pending, home: Seq<char>) -> bool {
    &&& entry.path == p.target
    &&& entry.written@ == p.digest->0@
    &&& entry.mode == p.mode
    &&& p.ownership == Ownership::Owned(entry.mechanism)
    &&& is_prior(entry.prior, p.seen->0)
    &&& texts(entry.created_dirs@) == portable_dirs(p.created_dirs@, home)
}

/// Whether a write or a removal is still the one that was asked for.
pub open spec fn carried(before: Pending, after: Pending) -> bool {
    &&& after.target == before.target
    &&& after.dest == before.dest
    &&& after.mode == before.mode
    &&& after.ownership == before.ownership
    &&& after.planned == before.planned
    &&& after.dir == before.dir
    &&& after.digest == before.digest
}

/// Whether what a write or a removal gathered is kept over a step: its bytes
/// until they are handed out, its temporary file and its directories once they
/// were made or surveyed, and what was seen at its destination once that was
/// looked at.
pub open spec fn kept(step: Step, before: Pending, after: Pending) -> bool {
    &&& step != Step::Stage ==> after.bytes == before.bytes
    &&& step != Step::Stage && step != Step::Survey ==> after.temp == before.temp
        && after.created_dirs == before.created_dirs
    &&& step != Step::Look && step != Step::Survey ==> after.seen == before.seen
}

/// Whether what is there is a link.
pub open spec fn is_link(kind: Kind) -> bool {
    kind matches Kind::Other(words) && words@ == "a symlink"@
}

/// Whether none of `dirs` is stray.
pub open spec fn none_stray(dirs: Seq<String>, dest: Seq<char>, home: Seq<char>) -> bool {
    forall|j: int| 0 <= j < dirs.len() ==> !stray((#[trigger] dirs[j])@, dest, home)
}

/// Whether each announced write but the last record is followed by its
/// completion.
pub open spec fn paired(log: Seq<Record>) -> bool {
    forall|i: int|
        0 <= i < log.len() - 1 && (#[trigger] log[i]) is Intent ==> (log[i + 1] matches Record::Done(
            done,
        ) && done.target@ == log[i]->Intent_0.target@)
}

/// How many writes were completed.
pub open spec fn completed(log: Seq<Record>) -> nat
    decreases log.len(),
{
    if log.len() == 0 {
        0
    } else {
        completed(log.drop_last()) + (if log.last() is Done {
            1nat
        } else {
            0
        })
    }
}

/// Whether every one of `dirs` is a directory above `dest`.
pub open spec fn all_above(dirs: Seq<String>, dest: Seq<char>) -> bool {
    forall|j: int|
        0 <= j < dirs.len() ==> !same_path((#[trigger] dirs[j])@, dest) && within(dest, dirs[j]@)
}

/// Whether a write made neither the home nor a directory above it.
pub open spec fn made_below(dirs: Seq<String>, home: Seq<char>) -> bool {
    forall|j: int| 0 <= j < dirs.len() ==> !within(home, (#[trigger] dirs[j])@)
}

/// Whether no journalled write made the home or a directory above it.
pub open spec fn all_made_below(log: Seq<Record>, home: Seq<char>) -> bool {
    forall|i: int|
        0 <= i < log.len() && (#[trigger] log[i]) is Intent ==> made_below(
            log[i]->Intent_0.created_dirs@,
            home,
        )
}

/// Whether every one of `dirs` is a directory above `dest`.
fn are_above(dirs: &Vec<String>, dest: &str) -> (r: bool)
    ensures
        r == all_above(dirs@, dest@),
{
    let mut i: usize = 0;
    while i < dirs.len()
        invariant
            i <= dirs.len(),
            forall|j: int|
                0 <= j < i ==> !same_path((#[trigger] dirs@[j])@, dest@) && within(
                    dest@,
                    dirs@[j]@,
                ),
        decreases dirs.len() - i,
    {
        let dir = dirs[i].as_str();
        if path_is(dir, dest) || !path_within(dest, dir) {
            assert(same_path(dirs@[i as int]@, dest@) || !within(dest@, dirs@[i as int]@));
            return false;
        }
        i = i + 1;
    }
    true
}

impl Course {
    /// What holds of a session between any two calls.
    pub open spec fn wf(self) -> bool {
        &&& self.ledger.wf()
        &&& self.step == Step::Create ==> self.log@.len() == 0 && (self.appending@ matches Some(
            Record::Begin(begin),
        ) && begin.home@ == self.home@ && !foreign(Record::Begin(begin), self.home@))
        &&& self.step != Step::Create ==> self.log@.len() > 0 && self.log@[0] is Begin
            && self.log@[0]->Begin_0.home@ == self.home@
        &&& absolute(self.home@) && all_made_below(self.log@, self.home@) ==> refused(self.log@) is None
        &&& !ended(self.step) ==> self.log@.len() == 0 || self.log@.last() !is End
        &&& ended(self.step) ==> self.log@.last() is End
        &&& paired(self.log@)
        &&& !after_intent(self.step) ==> self.log@.len() == 0 || self.log@.last() !is Intent
        &&& self.written == completed(self.log@)
        &&& forall|i: int|
            0 <= i < self.log@.len() && (#[trigger] self.log@[i]) is Intent ==> among(
                self.touched@,
                self.log@[i]->Intent_0.target@,
            )
        &&& self.written <= self.touched@.len()
        &&& in_flight(self.step) ==> self.pending is Some && self.pending_wf(self.pending->0)
        &&& self.step == Step::End ==> self.appending@ is Some && self.appending@->0 is End
    }

    /// What holds of the write in flight.
    pub open spec fn pending_wf(self, p: Pending) -> bool {
        &&& self.written < self.touched@.len()
        &&& among(self.touched@, p.target@)
        &&& same_path(p.dest@, rendered(p.target@, self.home@))
        &&& portable_against(p.target@, self.home@)
        &&& all_above(p.created_dirs@, p.dest@)
        &&& p.temp is Some ==> staged_beside(p.temp->0@, p.dest@)
        &&& before_intent(self.step) ==> fresh(self.log@, p.target@)
        &&& p.dir ==> p.temp is None && p.digest is Some && p.digest->0@ == sha256_of(Seq::empty())
        &&& p.digest is None ==> p.temp is None
        &&& self.step == Step::Survey ==> p.dir
        &&& self.step == Step::Look || self.step == Step::Stage || self.step == Step::Fill
            || self.step == Step::Keep ==> !p.dir
        &&& self.step == Step::Stage || self.step == Step::Fill || self.step == Step::Survey
            || self.step == Step::Store || self.step == Step::Intend || self.step == Step::Publish
            || self.step == Step::Record ==> p.digest is Some
        &&& self.step == Step::Keep || self.step == Step::Announce || self.step == Step::Unlink
            ==> p.digest is None
        &&& self.step == Step::Stage || (self.step == Step::Look && p.digest is Some)
            ==> p.bytes is Some && p.digest is Some && p.digest->0@ == sha256_of(p.bytes->0@)
        &&& !p.dir && p.digest is Some && self.step != Step::Look && self.step != Step::Stage
            ==> p.temp is Some
        &&& self.step != Step::Look && self.step != Step::Survey ==> p.seen is Some && unmoved(
            p.planned,
            p.seen->0,
        )
        &&& self.step == Step::Record ==> p.ownership is Owned
        &&& self.step == Step::Intend || self.step == Step::Announce ==> (
        self.appending@ matches Some(Record::Intent(intent)) && announces(intent, p))
        &&& self.step == Step::Complete ==> (self.appending@ matches Some(Record::Done(done))
            && done.target@ == p.target@)
        &&& after_intent(self.step) ==> self.log@.last() is Intent && announces(
            self.log@.last()->Intent_0,
            p,
        )
    }

    /// Whether the program's report is one the session can go on from.
    pub open spec fn accepts(self, did: Did) -> bool {
        let p = self.pending->0;
        match (self.step, did) {
            (Step::Create, Did::Created) => true,
            (Step::Stage, Did::Staged { temp, created_dirs }) => staged_beside(temp@, p.dest@)
                && all_above(created_dirs@, p.dest@),
            (Step::Survey, Did::Surveyed { observed, missing }) => unmoved(p.planned, observed) && (
            observed.kind is Absent || observed.kind is Dir) && all_above(missing@, p.dest@),
            (Step::Fill, Did::Filled) => !self.clashes(),
            (Step::Store, Did::Stored) => true,
            (Step::Keep, Did::Stored) => true,
            (Step::Intend, Did::Appended) => true,
            (Step::Announce, Did::Appended) => true,
            (Step::Complete, Did::Appended) => true,
            (Step::End, Did::Appended) => true,
            (Step::Publish, Did::Published) => true,
            (Step::Record, Did::Recorded) => true,
            (Step::Look, Did::Looked(now)) => unmoved(p.planned, now) && (now.kind is Absent
                || now.kind is File),
            (Step::LookAgain, Did::Looked(now)) => unmoved(p.planned, now),
            (Step::Unlink, Did::Unlinked) => true,
            (Step::Prune, Did::Pruned) => true,
            (Step::Settle, Did::Standing(_)) => true,
            (Step::Save, Did::Saved) => true,
            (Step::Clear, Did::Cleared) => true,
            _ => false,
        }
    }

    /// Whether the write in flight goes into a file bx shares through a region,
    /// and that file is there and is not as bx last left it.
    pub open spec fn clashes(self) -> bool {
        let p = self.pending->0;
        p.ownership matches Ownership::Owned(Mechanism::Region { .. }) && match position(
            self.ledger.entries@,
            p.target@,
        ) {
            Some(i) => p.seen->0.bytes is Some && !as_written(p.seen->0, self.ledger.entries@[i]),
            None => false,
        }
    }

    /// Whether a directory is being made or set to its mode.
    pub open spec fn makes_dir(self) -> bool {
        self.step == Step::Publish && self.pending->0.dir
    }

    /// The step after this one.
    pub open spec fn next(self) -> Step {
        let owned = self.pending->0.ownership is Owned;
        let writes = self.pending->0.digest is Some;
        match self.step {
            Step::Create => Step::Idle,
            Step::Idle => Step::Idle,
            Step::Stage => Step::Fill,
            Step::Fill | Step::Survey => Step::Store,
            Step::Store => Step::Intend,
            Step::Intend => Step::LookAgain,
            Step::Publish => if owned {
                Step::Record
            } else {
                Step::Complete
            },
            Step::Record => Step::Complete,
            Step::Complete => Step::Idle,
            Step::Look => if writes {
                Step::Stage
            } else {
                Step::Keep
            },
            Step::Keep => Step::Announce,
            Step::Announce => Step::LookAgain,
            Step::LookAgain => if writes {
                Step::Publish
            } else {
                Step::Unlink
            },
            Step::Unlink => Step::Complete,
            Step::End => Step::Prune,
            Step::Prune => Step::Settle,
            Step::Settle => Step::Save,
            Step::Save => Step::Clear,
            Step::Clear => Step::Finished,
            Step::Finished => Step::Finished,
        }
    }

    /// Whether `ask` is what a session at this step asks for.
    pub open spec fn asks(self, ask: Ask) -> bool {
        match self.step {
            Step::Create => ask matches Ask::Create(record) && self.appending@ == Some(record),
            Step::Idle => ask is Nothing,
            Step::Stage => ask is Stage,
            Step::Fill => ask matches Ask::Fill(bytes) && sha256_of(bytes@)
                == self.pending->0.digest->0@,
            Step::Store => ask matches Ask::Store(prior) && is_prior(prior, self.pending->0.seen->0),
            Step::Keep => ask matches Ask::Store(prior) && is_prior(prior, self.pending->0.seen->0),
            Step::Publish => if self.pending->0.dir {
                ask matches Ask::MakeDir(dirs) && dirs@ == self.pending->0.created_dirs@
            } else {
                ask is Publish
            },
            Step::Record => ask is Record,
            Step::Survey => ask is Survey,
            Step::Look => ask is Look,
            Step::LookAgain => ask is Look,
            Step::Unlink => ask is Unlink,
            Step::Prune => ask matches Ask::Prune(dirs) && prunable(
                self.ledger.entries@,
                self.home@,
                self.released@,
                dirs@,
            ),
            Step::Settle => ask matches Ask::Settle(dirs) && dirs@ == self.released@
                + self.forgotten@,
            Step::Save => ask is Save,
            Step::Clear => ask is Clear,
            Step::Finished => ask == Ask::Finished(self.written),
            _ => ask matches Ask::Append(record) && self.appending@ == Some(record),
        }
    }

    /// The records that are durable once `did` is reported.
    pub open spec fn log_after(self, did: Did) -> Seq<Record> {
        if did is Appended || did is Created {
            self.log@.push(self.appending@->0)
        } else {
            self.log@
        }
    }

    /// What the ledger and the claims are once `did` is reported.
    pub open spec fn books_after(self, did: Did, after: Course) -> bool {
        let p = self.pending->0;
        let at = position(self.ledger.entries@, p.target@);
        let entries = self.ledger.entries@;
        match (self.step, did) {
            (Step::Publish, Did::Published) => {
                &&& after.released@ == self.released@
                &&& p.ownership is Owned ==> after.ledger == self.ledger && after.forgotten@
                    == self.forgotten@
                &&& p.ownership !is Owned ==> match at {
                    Some(i) => after.ledger.entries@ == entries.remove(i) && strings(
                        after.forgotten@,
                    ) == strings(self.forgotten@) + claims_at(entries[i], self.home@),
                    None => after.ledger.entries@ == entries && after.forgotten@ == self.forgotten@,
                }
            },
            (Step::Record, Did::Recorded) => (exists|entry: LedgerEntry|
                owns(entry, p, self.home@) && #[trigger] recorded(
                    entries,
                    entry,
                    after.ledger.entries@,
                )) && after.forgotten@ == self.forgotten@ && after.released@ == self.released@,
            (Step::Unlink, Did::Unlinked) => {
                &&& after.forgotten@ == self.forgotten@
                &&& after.released@ == self.released@ + p.created_dirs@
                &&& match at {
                    Some(i) => after.ledger.entries@ == entries.remove(i),
                    None => after.ledger.entries@ == entries,
                }
            },
            (Step::Settle, Did::Standing(dirs)) => (exists|order: Seq<String>| #[trigger]
                taken(dirs@, false, order) && handed(
                    entries,
                    self.home@,
                    order,
                    after.ledger.entries@,
                )) && after.forgotten@ == self.forgotten@ && after.released@ == self.released@,
            _ => after.ledger == self.ledger && after.forgotten@ == self.forgotten@
                && after.released@ == self.released@,
        }
    }

    /// The intent a write or a removal is announced by.
    pub open spec fn announced(self, did: Did, intent: Intent) -> bool {
        let p = self.pending->0;
        let at = position(self.ledger.entries@, p.target@);
        &&& announces(intent, p)
        &&& did is Stored
        &&& match at {
            Some(i) => intent.ledger_written is Some && intent.ledger_written->0@
                == self.ledger.entries@[i].written@,
            None => intent.ledger_written is None,
        }
        &&& intent.mechanism == match (p.digest, p.ownership) {
            (Some(_), Ownership::Owned(mechanism)) => Some(mechanism),
            _ => None,
        }
    }

    /// What the saved ledger says bx last wrote to a target.
    fn ledger_written(&self, target: &str) -> (r: Option<ContentHash>)
        requires
            self.ledger.wf(),
        ensures
            match position(self.ledger.entries@, target@) {
                Some(i) => r is Some && r->0@ == self.ledger.entries@[i].written@,
                None => r is None,
            },
    {
        match self.ledger.find(target) {
            Some(i) => Some(self.ledger.entries[i].written.copy()),
            None => None,
        }
    }

    fn poisoned_error(&self) -> (r: Error)
        ensures
            r matches Error::Poisoned { path } && path@ == self.path@,
    {
        Error::Poisoned { path: self.path.clone() }
    }

    /// What dropping a target from the ledger makes of a session.
    pub open spec fn forgets(self, target: Seq<char>, after: Course) -> bool {
        &&& after.step == self.step
        &&& after.log == self.log
        &&& after.appending == self.appending
        &&& after.pending == self.pending
        &&& after.path == self.path
        &&& after.home == self.home
        &&& after.created == self.created
        &&& after.released == self.released
        &&& after.touched == self.touched
        &&& after.poisoned == self.poisoned
        &&& after.written == self.written
        &&& match position(self.ledger.entries@, target) {
            Some(i) => after.ledger.entries@ == self.ledger.entries@.remove(i) && strings(
                after.forgotten@,
            ) == strings(self.forgotten@) + claims_at(self.ledger.entries@[i], self.home@),
            None => after.ledger.entries@ == self.ledger.entries@ && after.forgotten@
                == self.forgotten@,
        }
    }
}

/// Appending the intent of a fresh, well-placed write keeps a journal believed.
proof fn lemma_intent_is_believed(log: Seq<Record>, home: Seq<char>, intent: Intent, p: Pending)
    requires
        log.len() > 0,
        log[0] is Begin,
        log[0]->Begin_0.home@ == home,
        refused(log) is None,
        log.last() !is End,
        announces(intent, p),
        same_path(p.dest@, rendered(p.target@, home)),
        portable_against(p.target@, home),
        all_above(p.created_dirs@, p.dest@),
        made_below(p.created_dirs@, home),
        p.temp is Some ==> staged_beside(p.temp->0@, p.dest@),
        fresh(log, p.target@),
    ensures
        refused(log.push(Record::Intent(intent))) is None,
{
    let next = Record::Intent(intent);
    let more = log.push(next);
    assert(misplacement(intent, home) is None) by {
        assert forall|j: int| 0 <= j < intent.created_dirs@.len() implies !stray(
            (#[trigger] intent.created_dirs@[j])@,
            intent.dest@,
            home,
        ) by {
            assert(!same_path(p.created_dirs@[j]@, p.dest@) && within(
                p.dest@,
                p.created_dirs@[j]@,
            ));
            assert(!within(home, p.created_dirs@[j]@));
        }
    }
    assert(!written_before(more, intent.target@, log.len() as int)) by {
        if written_before(more, intent.target@, log.len() as int) {
            let j = choose|j: int|
                1 <= j < log.len() && (#[trigger] more[j]) is Intent && more[j]->Intent_0.target@
                    == intent.target@;
            assert(log[j] is Intent);
        }
    }
    a_longer_journal_is_believed(log, next);
}

impl Course {
    /// Refuse a request no journal bx believes could describe.
    ///
    /// The loader refuses a journal whose intent's destination is not where its
    /// target renders, or that writes one target twice, so a session never
    /// writes either.
    fn vet(&self, target: &Portable, dest: &str, created_dirs: &Vec<String>) -> (r: Result<
        (),
        Error,
    >)
        ensures
            match r {
                Ok(_) => self.admits(target@, dest@, created_dirs@) is None,
                Err(error) => self.admits(target@, dest@, created_dirs@) matches Some(refusal)
                    && refuses(refusal, target@, dest@, self.home@, created_dirs@, error),
            },
    {
        let home = self.home.as_str();
        let at = target.render(home);
        if !path_is(dest, at.as_str()) {
            return Err(
                Error::Misplaced {
                    target: target.clone(),
                    dest: dest.to_owned(),
                    rendered: at,
                },
            );
        }
        if !target.check_against(home) {
            return Err(
                Error::ForeignRecord { home: home.to_owned(), stored: target.text.clone() },
            );
        }
        if let Some(i) = stray_created_dir(dest, home, created_dirs.as_slice()) {
            assert(stray(created_dirs@[i as int]@, dest@, home@));
            return Err(
                Error::StrayCreatedDir { target: target.clone(), dir: created_dirs[i].clone() },
            );
        }
        let mut t: usize = 0;
        while t < self.touched.len()
            invariant
                t <= self.touched.len(),
                home@ == self.home@,
                same_path(dest@, rendered(target@, home@)),
                portable_against(target@, home@),
                none_stray(created_dirs@, dest@, home@),
                forall|k: int| 0 <= k < t ==> (#[trigger] self.touched@[k])@ != target@,
            decreases self.touched.len() - t,
        {
            if same_text(self.touched[t].text.as_str(), target.text.as_str()) {
                assert(self.touched@[t as int]@ == target@);
                return Err(Error::Repeated { target: target.clone() });
            }
            t = t + 1;
        }
        Ok(())
    }

    /// Why a request is not admitted, if it is not.
    pub open spec fn admits(
        self,
        target: Seq<char>,
        dest: Seq<char>,
        created_dirs: Seq<String>,
    ) -> Option<Refusal> {
        if !same_path(dest, rendered(target, self.home@)) {
            Some(Refusal::Misplaced)
        } else if !portable_against(target, self.home@) {
            Some(Refusal::Foreign)
        } else if !none_stray(created_dirs, dest, self.home@) {
            Some(Refusal::Stray)
        } else if among(self.touched@, target) {
            Some(Refusal::Repeated)
        } else {
            None
        }
    }

    /// What a request makes of a session, and what it is answered.
    pub open spec fn applies(self, request: Request, r: Result<Ask, Error>, after: Course) -> bool {
        &&& after.log == self.log
        &&& after.ledger == self.ledger
        &&& after.written == self.written
        &&& after.released == self.released
        &&& after.forgotten == self.forgotten
        &&& after.created == self.created
        &&& after.home == self.home
        &&& after.path == self.path
        &&& r is Err ==> after.poisoned && after.touched@ == self.touched@ && after.step
            == self.step
        &&& match request_refusal(self, request) {
            Some(refusal) => r is Err && refuses(
                refusal,
                request.target@,
                request.dest@,
                self.home@,
                request_claims(request),
                r->Err_0,
            ) && (refusal == Refusal::Poisoned ==> r->Err_0->Poisoned_path@ == self.path@),
            None => r is Ok && !after.poisoned && after.asks(r->Ok_0) && after.touched@
                == self.touched@.push(request.target) && after.step == (match request.content {
                Content::Dir { .. } => Step::Survey,
                _ => Step::Look,
            }),
        }
        &&& r is Ok ==> (after.pending matches Some(p) && p.target == request.target && p.dest
            == request.dest && p.mode == request.mode && p.ownership == request.ownership
            && p.planned == request_planned(request) && p.created_dirs@ == request_claims(request)
            && p.temp is None && p.seen is None && p.dir == request.content is Dir
            && match request.content {
            Content::Bytes { bytes, .. } => p.bytes == Some(bytes) && p.digest is Some
                && p.digest->0@ == sha256_of(bytes@),
            Content::Absent { .. } => p.bytes is None && p.digest is None,
            Content::Dir { .. } => p.bytes is None && p.digest is Some && p.digest->0@
                == sha256_of(Seq::empty()),
        })
    }

    fn apply(&mut self, request: Request) -> (r: Result<Ask, Error>)
        requires
            old(self).wf(),
        ensures
            final(self).wf(),
            old(self).applies(request, r, *final(self)),
    {
        if self.poisoned {
            return Err(self.poisoned_error());
        }
        let idle = match self.step {
            Step::Idle => true,
            _ => false,
        };
        if !idle {
            self.poisoned = true;
            return Err(Error::OutOfStep);
        }
        let Request { target, dest, content, mode, ownership } = request;
        let dir = match &content {
            Content::Dir { .. } => true,
            _ => false,
        };
        let (step, created_dirs, planned, bytes, digest) = match content {
            Content::Bytes { bytes, planned } => {
                let none: Vec<String> = Vec::new();
                assert(none@ =~= Seq::<String>::empty());
                let digest = ContentHash::of(bytes.as_slice());
                (Step::Look, none, planned, Some(bytes), Some(digest))
            },
            Content::Dir { planned } => {
                let none: Vec<String> = Vec::new();
                assert(none@ =~= Seq::<String>::empty());
                (Step::Survey, none, planned, None, Some(dir_digest()))
            },
            Content::Absent { created_dirs, planned } => (
                Step::Look,
                created_dirs,
                planned,
                None,
                None,
            ),
        };
        if let Err(error) = self.vet(&target, dest.as_str(), &created_dirs) {
            self.poisoned = true;
            return Err(error);
        }
        let ghost before = *self;
        proof {
            assert(fresh(self.log@, target@)) by {
                assert forall|i: int|
                    0 <= i < self.log@.len() && (
                    #[trigger] self.log@[i]) is Intent implies self.log@[i]->Intent_0.target@
                    != target@ by {
                    assert(among(self.touched@, self.log@[i]->Intent_0.target@));
                }
            }
        }
        self.touched.push(target.clone());
        proof {
            assert(self.touched@[self.touched@.len() - 1]@ == target@);
            assert forall|i: int| 0 <= i < self.log@.len() && (
            #[trigger] self.log@[i]) is Intent implies among(
                self.touched@,
                self.log@[i]->Intent_0.target@,
            ) by {
                let t = choose|t: int|
                    0 <= t < before.touched@.len() && (#[trigger] before.touched@[t])@
                        == self.log@[i]->Intent_0.target@;
                assert(self.touched@[t] == before.touched@[t]);
            }
        }
        self.pending = Some(
            Pending {
                target,
                dest,
                mode,
                ownership,
                planned,
                dir,
                temp: None,
                created_dirs,
                bytes,
                digest,
                seen: None,
            },
        );
        self.step = step;
        match step {
            Step::Survey => Ok(Ask::Survey),
            _ => Ok(Ask::Look),
        }
    }

    /// What ending a session makes of it, and what that is answered.
    pub open spec fn ends(self, r: Result<Ask, Error>, after: Course) -> bool {
        &&& after.log == self.log
        &&& after.ledger == self.ledger
        &&& after.written == self.written
        &&& after.touched == self.touched
        &&& after.created == self.created
        &&& after.released == self.released
        &&& after.forgotten == self.forgotten
        &&& after.home == self.home
        &&& after.path == self.path
        &&& if self.poisoned {
            after == self && (r matches Err(Error::Poisoned { path }) && path@ == self.path@)
        } else if self.step != Step::Idle {
            after.poisoned && after.step == self.step && r == Err::<Ask, Error>(Error::OutOfStep)
        } else {
            after.step == Step::End && r is Ok && after.asks(r->Ok_0) && after.appending@ == Some(
                Record::End(End { written: self.written }),
            ) && !after.poisoned
        }
    }

    fn finish(&mut self) -> (r: Result<Ask, Error>)
        requires
            old(self).wf(),
        ensures
            final(self).wf(),
            old(self).ends(r, *final(self)),
    {
        if self.poisoned {
            return Err(self.poisoned_error());
        }
        let idle = match self.step {
            Step::Idle => true,
            _ => false,
        };
        if !idle {
            self.poisoned = true;
            return Err(Error::OutOfStep);
        }
        let end = Record::End(End { written: self.written });
        self.appending = Ghost(Some(end));
        self.step = Step::End;
        Ok(Ask::Append(end))
    }
}

/// Why a request is refused.
pub ghost enum Refusal {
    Poisoned,
    OutOfStep,
    Misplaced,
    Foreign,
    Stray,
    Repeated,
}

/// Why a session refuses a request, if it does.
pub open spec fn request_refusal(session: Course, request: Request) -> Option<Refusal> {
    if session.poisoned {
        Some(Refusal::Poisoned)
    } else if session.step != Step::Idle {
        Some(Refusal::OutOfStep)
    } else {
        session.admits(request.target@, request.dest@, request_claims(request))
    }
}

/// The directories a request claims bx created.
pub open spec fn request_claims(request: Request) -> Seq<String> {
    match request.content {
        Content::Absent { created_dirs, .. } => created_dirs@,
        _ => Seq::empty(),
    }
}

/// What a request was planned against.
pub open spec fn request_planned(request: Request) -> Observed {
    match request.content {
        Content::Bytes { planned, .. } => planned,
        Content::Absent { planned, .. } => planned,
        Content::Dir { planned } => planned,
    }
}

/// Whether `error` is what a refusal is reported as.
pub open spec fn refuses(
    refusal: Refusal,
    target: Seq<char>,
    dest: Seq<char>,
    home: Seq<char>,
    created_dirs: Seq<String>,
    error: Error,
) -> bool {
    match refusal {
        Refusal::Poisoned => error is Poisoned,
        Refusal::OutOfStep => error is OutOfStep,
        Refusal::Misplaced => error matches Error::Misplaced { target: t, dest: d, rendered: at }
            && t@ == target && d@ == dest && at@ == rendered(target, home),
        Refusal::Foreign => error matches Error::ForeignRecord { home: h, stored } && h@ == home
            && stored@ == target,
        Refusal::Stray => error matches Error::StrayCreatedDir { target: t, dir } && t@ == target
            && exists|i: int|
            0 <= i < created_dirs.len() && dir@ == (#[trigger] created_dirs[i])@ && stray(
                created_dirs[i]@,
                dest,
                home,
            ) && forall|j: int| 0 <= j < i ==> !stray((#[trigger] created_dirs[j])@, dest, home),
        Refusal::Repeated => error matches Error::Repeated { target: t } && t@ == target,
    }
}

impl Course {
    /// Builds the intent of the write or removal in flight.
    fn intent_of(&self) -> (r: Intent)
        requires
            self.wf(),
            self.step == Step::Store || self.step == Step::Keep,
        ensures
            self.announced(Did::Stored, r),
    {
        match &self.pending {
            Some(p) => {
                let after = match &p.digest {
                    Some(digest) => Written::Present { digest: digest.copy(), mode: p.mode },
                    None => Written::Absent,
                };
                let mechanism = match (&p.digest, &p.ownership) {
                    (Some(_), Ownership::Owned(mechanism)) => Some(mechanism.clone()),
                    _ => None,
                };
                let temp = match &p.temp {
                    Some(temp) => Some(temp.clone()),
                    None => None,
                };
                let before = match &p.seen {
                    Some(seen) => prior_of(seen),
                    None => Prior::Absent,
                };
                Intent {
                    target: p.target.clone(),
                    dest: p.dest.clone(),
                    temp,
                    before,
                    after,
                    created_dirs: copy_texts(&p.created_dirs),
                    mechanism,
                    ledger_written: self.ledger_written(p.target.text.as_str()),
                }
            },
            None => {
                assert(false);
                vstd::pervasive::unreached()
            },
        }
    }

    /// What the write in flight displaces.
    fn displaced(&self) -> (r: Prior)
        requires
            self.pending is Some,
            self.pending->0.seen is Some,
        ensures
            is_prior(r, self.pending->0.seen->0),
    {
        match &self.pending {
            Some(p) => match &p.seen {
                Some(seen) => prior_of(seen),
                None => {
                    assert(false);
                    Prior::Absent
                },
            },
            None => {
                assert(false);
                Prior::Absent
            },
        }
    }

    /// The entry of the write in flight, which bx owns.
    fn owned_entry(&self) -> (r: LedgerEntry)
        requires
            self.wf(),
            self.step == Step::Record,
        ensures
            owns(r, self.pending->0, self.home@),
    {
        match &self.pending {
            Some(p) => {
                let dirs = portables(&p.created_dirs, self.home.as_str());
                match (&p.digest, &p.ownership, &p.seen) {
                    (Some(digest), Ownership::Owned(mechanism), Some(seen)) => LedgerEntry {
                        path: p.target.clone(),
                        written: digest.copy(),
                        mode: p.mode,
                        mechanism: mechanism.clone(),
                        prior: prior_of(seen),
                        created_dirs: dirs,
                    },
                    _ => {
                        assert(false);
                        vstd::pervasive::unreached()
                    },
                }
            },
            None => {
                assert(false);
                vstd::pervasive::unreached()
            },
        }
    }

    /// The completion of the write or removal in flight.
    fn completion(&self) -> (r: Record)
        requires
            self.pending is Some,
        ensures
            r matches Record::Done(done) && done.target == self.pending->0.target,
    {
        match &self.pending {
            Some(p) => Record::Done(Done { target: p.target.clone() }),
            None => {
                assert(false);
                vstd::pervasive::unreached()
            },
        }
    }

    /// Whether the write in flight goes into a file bx shares through a region,
    /// and that file is there and is not as bx last left it.
    fn is_clash(&self) -> (r: bool)
        requires
            self.wf(),
            self.step == Step::Fill,
        ensures
            r == self.clashes(),
    {
        let (p, seen) = match &self.pending {
            Some(p) => match &p.seen {
                Some(seen) => (p, seen),
                None => {
                    return false;
                },
            },
            None => {
                return false;
            },
        };
        match &p.ownership {
            Ownership::Owned(Mechanism::Region { .. }) => {},
            _ => {
                return false;
            },
        }
        match self.ledger.find(p.target.text.as_str()) {
            Some(i) => seen.bytes.is_some() && !is_as_written(seen, &self.ledger.entries[i]),
            None => false,
        }
    }

    /// Why a report is not one the session can go on from, if it is not.
    fn objection(&self, did: &Did) -> (r: Option<Error>)
        requires
            self.wf(),
            did !is Failed,
        ensures
            r is None <==> self.accepts(*did),
            r matches Some(error) ==> self.objects(*did, error),
    {
        match (&self.step, did, &self.pending) {
            (Step::Create, Did::Created, _) => None,
            (Step::Stage, Did::Staged { temp, created_dirs }, Some(p)) => {
                let dest = p.dest.as_str();
                let temp = temp.as_str();
                let beside_it = !path_is(temp, dest) && beside(temp, dest) && match file_name_of(
                    temp,
                ) {
                    Some(name) => begins_with(name.as_str(), ".bx-"),
                    None => false,
                };
                if beside_it && are_above(created_dirs, dest) {
                    None
                } else {
                    Some(Error::OutOfStep)
                }
            },
            (Step::Survey, Did::Surveyed { observed, missing }, Some(p)) => match refuse_moved(
                &p.planned,
                observed,
            ) {
                Err(error) => Some(error),
                Ok(_) => match &observed.kind {
                    Kind::Absent | Kind::Dir => if are_above(missing, p.dest.as_str()) {
                        None
                    } else {
                        Some(Error::OutOfStep)
                    },
                    _ => Some(
                        Error::NotADir { path: p.dest.clone(), kind: observed.kind.clone() },
                    ),
                },
            },
            (Step::Fill, Did::Filled, Some(p)) => if self.is_clash() {
                Some(Error::PriorConflict { target: p.target.clone() })
            } else {
                None
            },
            (Step::Store, Did::Stored, _) => None,
            (Step::Keep, Did::Stored, _) => None,
            (Step::Intend, Did::Appended, _) => None,
            (Step::Announce, Did::Appended, _) => None,
            (Step::Complete, Did::Appended, _) => None,
            (Step::End, Did::Appended, _) => None,
            (Step::Publish, Did::Published, _) => None,
            (Step::Record, Did::Recorded, _) => None,
            (Step::Look, Did::Looked(now), Some(p)) => match refuse_moved(&p.planned, now) {
                Err(error) => Some(error),
                Ok(_) => match &now.kind {
                    Kind::Absent | Kind::File => None,
                    Kind::Other(words) if p.digest.is_some() && same_text(
                        words.as_str(),
                        "a symlink",
                    ) => Some(Error::Symlink { path: p.dest.clone() }),
                    _ => Some(Error::NotAFile { path: p.dest.clone(), kind: now.kind.clone() }),
                },
            },
            (Step::LookAgain, Did::Looked(now), Some(p)) => match refuse_moved(&p.planned, now) {
                Err(error) => Some(error),
                Ok(_) => None,
            },
            (Step::Unlink, Did::Unlinked, _) => None,
            (Step::Prune, Did::Pruned, _) => None,
            (Step::Settle, Did::Standing(_), _) => None,
            (Step::Save, Did::Saved, _) => None,
            (Step::Clear, Did::Cleared, _) => None,
            _ => Some(Error::OutOfStep),
        }
    }

    /// What a report the session cannot go on from is refused with.
    pub open spec fn objects(self, did: Did, error: Error) -> bool {
        let p = self.pending->0;
        match (self.step, did) {
            (_, Did::Failed(why)) => error == why,
            (Step::Look, Did::Looked(now)) => if !unmoved(p.planned, now) {
                error matches Error::Changed { path, detail } && path@ == now.path@ && detail@
                    == moved_words(p.planned, now)
            } else if p.digest is Some && is_link(now.kind) {
                error matches Error::Symlink { path } && path@ == p.dest@
            } else {
                error matches Error::NotAFile { path, kind } && path@ == p.dest@ && kind == now.kind
            },
            (Step::Fill, Did::Filled) => error matches Error::PriorConflict { target } && target@
                == p.target@,
            (Step::LookAgain, Did::Looked(now)) => error matches Error::Changed { path, detail }
                && path@ == now.path@ && detail@ == moved_words(p.planned, now),
            (Step::Survey, Did::Surveyed { observed, .. }) => if !unmoved(p.planned, observed) {
                error matches Error::Changed { path, detail } && path@ == observed.path@ && detail@
                    == moved_words(p.planned, observed)
            } else if observed.kind is Absent || observed.kind is Dir {
                error is OutOfStep
            } else {
                error matches Error::NotADir { path, kind } && path@ == p.dest@ && kind
                    == observed.kind
            },
            _ => error is OutOfStep,
        }
    }

    /// What a report makes of a session, and what it is answered.
    pub open spec fn reports(self, did: Did, r: Result<Ask, Error>, after: Course) -> bool {
        &&& after.home == self.home
        &&& after.path == self.path
        &&& after.touched == self.touched
        &&& r is Ok <==> !self.poisoned && self.accepts(did)
        &&& self.poisoned ==> after == self && (r matches Err(Error::Poisoned { path }) && path@
            == self.path@)
        &&& r is Err ==> after.poisoned && after.log == self.log && after.ledger == self.ledger
            && after.step == self.step && after.written == self.written && after.released
            == self.released && after.forgotten == self.forgotten && after.created == self.created
        &&& r is Err && !self.poisoned ==> self.objects(did, r->Err_0)
        &&& r is Ok ==> after.asks(r->Ok_0) && self.goes_on(did, after) && (self.step
            == Step::Stage ==> (r->Ok_0 matches Ask::Fill(bytes) && Some(bytes)
            == self.pending->0.bytes))
    }

    /// What a report the session goes on from makes of it.
    pub open spec fn goes_on(self, did: Did, after: Course) -> bool {
        &&& !after.poisoned
        &&& after.step == self.next()
        &&& after.log@ == self.log_after(did)
        &&& self.books_after(did, after)
        &&& after.written == self.written + (if self.step == Step::Complete {
            1int
        } else {
            0
        })
        &&& in_flight(self.step) && in_flight(after.step) ==> carried(
            self.pending->0,
            after.pending->0,
        ) && kept(self.step, self.pending->0, after.pending->0)
        &&& self.step == Step::Look ==> after.pending->0.seen == Some(did->Looked_0)
        &&& self.step == Step::Survey ==> {
            &&& after.pending->0.temp is None
            &&& after.pending->0.created_dirs == did->missing
            &&& after.pending->0.seen == Some(did->Surveyed_observed)
        }
        &&& self.step == Step::Stage ==> {
            &&& after.created@ == self.created@ + did->Staged_created_dirs@
            &&& after.pending->0.created_dirs == did->Staged_created_dirs
            &&& after.pending->0.temp == Some(did->Staged_temp)
        }
        &&& self.makes_dir() ==> after.created@ == self.created@ + self.pending->0.created_dirs@
        &&& self.step != Step::Stage && !self.makes_dir() ==> after.created@ == self.created@
        &&& self.step == Step::Store || self.step == Step::Keep ==> (
        after.appending@ matches Some(Record::Intent(intent)) && self.announced(did, intent))
    }

    #[verifier::rlimit(60)]
    #[verifier::spinoff_prover]
    fn report(&mut self, did: Did) -> (r: Result<Ask, Error>)
        requires
            old(self).wf(),
        ensures
            final(self).wf(),
            old(self).reports(did, r, *final(self)),
    {
        if self.poisoned {
            return Err(self.poisoned_error());
        }
        if let Did::Failed(error) = did {
            self.poisoned = true;
            return Err(error);
        }
        if let Some(error) = self.objection(&did) {
            self.poisoned = true;
            return Err(error);
        }
        let ghost start = *self;
        match did {
            Did::Created => {
                proof {
                    let begin = self.appending@->0;
                    assert(self.log@ =~= Seq::<Record>::empty());
                    assert(self.log@.push(begin).len() == 1);
                    assert(self.log@.push(begin)[0] == begin);
                    assert(self.log@.push(begin).drop_last() =~= self.log@);
                    reveal_with_fuel(completed, 2);
                    assert(absolute(self.home@) ==> refused(self.log@.push(begin)) is None);
                }
                self.log = Ghost(self.log@.push(self.appending@->0));
                self.step = Step::Idle;
                Ok(Ask::Nothing)
            },
            Did::Staged { temp, created_dirs } => {
                let mut made = copy_texts(&created_dirs);
                self.created.append(&mut made);
                let mut content: Vec<u8> = Vec::new();
                match self.pending.take() {
                    Some(mut p) => {
                        match p.bytes.take() {
                            Some(bytes) => {
                                content = bytes;
                            },
                            None => {
                                assert(false);
                            },
                        }
                        p.temp = Some(temp);
                        p.created_dirs = created_dirs;
                        self.pending = Some(p);
                    },
                    None => {
                        assert(false);
                    },
                }
                self.step = Step::Fill;
                Ok(Ask::Fill(content))
            },
            Did::Surveyed { observed, missing } => {
                let prior = prior_of(&observed);
                match self.pending.take() {
                    Some(mut p) => {
                        p.created_dirs = missing;
                        p.seen = Some(observed);
                        self.pending = Some(p);
                    },
                    None => {
                        assert(false);
                    },
                }
                self.step = Step::Store;
                Ok(Ask::Store(prior))
            },
            Did::Filled => {
                let prior = self.displaced();
                self.step = Step::Store;
                Ok(Ask::Store(prior))
            },
            Did::Stored => {
                let intent = self.intent_of();
                let next = match self.step {
                    Step::Store => Step::Intend,
                    _ => Step::Announce,
                };
                let record = Record::Intent(intent);
                self.appending = Ghost(Some(record));
                self.step = next;
                Ok(Ask::Append(record))
            },
            Did::Appended => self.appended(),
            Did::Published => {
                if let Some(p) = &self.pending {
                    if p.dir {
                        let mut made = copy_texts(&p.created_dirs);
                        self.created.append(&mut made);
                    }
                }
                let owned = match &self.pending {
                    Some(p) => match &p.ownership {
                        Ownership::Owned(_) => true,
                        Ownership::Released => false,
                    },
                    None => false,
                };
                if owned {
                    self.step = Step::Record;
                    return Ok(Ask::Record);
                }
                let done = self.completion();
                let dropped = match &self.pending {
                    Some(p) => self.ledger.forget(p.target.text.as_str()),
                    None => None,
                };
                if let Some(entry) = dropped {
                    push_claims(&mut self.forgotten, &entry, self.home.as_str());
                }
                self.appending = Ghost(Some(done));
                self.step = Step::Complete;
                Ok(Ask::Append(done))
            },
            Did::Recorded => {
                let done = self.completion();
                let entry = self.owned_entry();
                self.ledger.record(entry);
                self.appending = Ghost(Some(done));
                self.step = Step::Complete;
                Ok(Ask::Append(done))
            },
            Did::Looked(now) => {
                let again = match self.step {
                    Step::LookAgain => true,
                    _ => false,
                };
                let writes = match &self.pending {
                    Some(p) => p.digest.is_some(),
                    None => false,
                };
                if again {
                    if writes {
                        self.step = Step::Publish;
                        return Ok(self.touch());
                    }
                    self.step = Step::Unlink;
                    return Ok(Ask::Unlink);
                }
                let prior = prior_of(&now);
                match self.pending.take() {
                    Some(mut p) => {
                        p.seen = Some(now);
                        self.pending = Some(p);
                    },
                    None => {
                        assert(false);
                    },
                }
                if writes {
                    self.step = Step::Stage;
                    Ok(Ask::Stage)
                } else {
                    self.step = Step::Keep;
                    Ok(Ask::Store(prior))
                }
            },
            Did::Unlinked => {
                let done = self.completion();
                match &self.pending {
                    Some(p) => {
                        let mut dirs = copy_texts(&p.created_dirs);
                        self.released.append(&mut dirs);
                        let _ = self.ledger.forget(p.target.text.as_str());
                    },
                    None => {},
                }
                self.appending = Ghost(Some(done));
                self.step = Step::Complete;
                Ok(Ask::Append(done))
            },
            Did::Pruned => {
                let mut dirs = copy_texts(&self.released);
                let mut more = copy_texts(&self.forgotten);
                dirs.append(&mut more);
                self.step = Step::Settle;
                Ok(Ask::Settle(dirs))
            },
            Did::Standing(dirs) => {
                hand_off_claims(&mut self.ledger, self.home.as_str(), &dirs);
                self.step = Step::Save;
                Ok(Ask::Save)
            },
            Did::Saved => {
                self.step = Step::Clear;
                Ok(Ask::Clear)
            },
            Did::Cleared => {
                self.step = Step::Finished;
                Ok(Ask::Finished(self.written))
            },
            Did::Failed(_) => {
                assert(false);
                Err(Error::OutOfStep)
            },
        }
    }

    /// What puts the write in flight in place.
    fn touch(&self) -> (r: Ask)
        requires
            self.pending is Some,
            self.step == Step::Publish,
        ensures
            self.asks(r),
    {
        match &self.pending {
            Some(p) => if p.dir {
                Ask::MakeDir(copy_texts(&p.created_dirs))
            } else {
                Ask::Publish
            },
            None => {
                assert(false);
                Ask::Publish
            },
        }
    }

    /// The record being appended is durable.
    fn appended(&mut self) -> (r: Result<Ask, Error>)
        requires
            old(self).wf(),
            old(self).accepts(Did::Appended),
            !old(self).poisoned,
        ensures
            final(self).wf(),
            final(self).home == old(self).home,
            final(self).path == old(self).path,
            final(self).touched == old(self).touched,
            final(self).ledger == old(self).ledger,
            final(self).released == old(self).released,
            final(self).forgotten == old(self).forgotten,
            final(self).created == old(self).created,
            in_flight(final(self).step) ==> final(self).pending == old(self).pending,
            r is Ok,
            !final(self).poisoned,
            final(self).step == old(self).next(),
            final(self).asks(r->Ok_0),
            final(self).log@ == old(self).log@.push(old(self).appending@->0),
            final(self).written == old(self).written + (if old(self).step == Step::Complete {
                1int
            } else {
                0
            }),
    {
        let ghost record = self.appending@->0;
        let ghost log = self.log@;
        proof {
            let p = self.pending->0;
            assert(log.push(record).drop_last() =~= log);
            assert(paired(log.push(record))) by {
                assert forall|i: int|
                    0 <= i < log.push(record).len() - 1 && (#[trigger] log.push(
                        record,
                    )[i]) is Intent implies (log.push(record)[i + 1] matches Record::Done(done)
                    && done.target@ == log.push(record)[i]->Intent_0.target@) by {
                    assert(log.push(record)[i] == log[i]);
                    if i < log.len() - 1 {
                        assert(log.push(record)[i + 1] == log[i + 1]);
                    } else {
                        assert(log[i] == log.last());
                        assert(log.push(record)[i + 1] == record);
                    }
                }
            }
            assert(absolute(self.home@) && all_made_below(log.push(record), self.home@) ==> refused(
                log.push(record),
            ) is None) by {
                if absolute(self.home@) && all_made_below(log.push(record), self.home@) {
                    assert forall|i: int| 0 <= i < log.len() && (#[trigger] log[i]) is Intent implies made_below(
                        log[i]->Intent_0.created_dirs@,
                        self.home@,
                    ) by {
                        assert(log.push(record)[i] == log[i]);
                    }
                    assert(log.push(record)[log.len() as int] == record);
                    if self.step == Step::Intend || self.step == Step::Announce {
                        lemma_intent_is_believed(log, self.home@, record->Intent_0, p);
                    } else if self.step == Step::Complete {
                        assert(!foreign(record, self.home@));
                        a_longer_journal_is_believed(log, record);
                    } else {
                        assert(record is End);
                        a_longer_journal_is_believed(log, record);
                    }
                }
            }
            assert forall|i: int|
                0 <= i < log.push(record).len() && (#[trigger] log.push(
                    record,
                )[i]) is Intent implies among(
                self.touched@,
                log.push(record)[i]->Intent_0.target@,
            ) by {
                if i < log.len() {
                    assert(log.push(record)[i] == log[i]);
                }
            }
        }
        self.log = Ghost(self.log@.push(self.appending@->0));
        match self.step {
            Step::Intend | Step::Announce => {
                self.step = Step::LookAgain;
                Ok(Ask::Look)
            },
            Step::Complete => {
                assert(self.written < self.touched.len());
                self.written = self.written + 1;
                self.pending = None;
                self.step = Step::Idle;
                Ok(Ask::Nothing)
            },
            _ => {
                let dirs = prune_claims(&self.ledger, self.home.as_str(), &self.released);
                self.step = Step::Prune;
                Ok(Ask::Prune(dirs))
            },
        }
    }
}

/// A transaction over the state directory: the ledger and the journal.
///
/// Every byte bx writes to a user's filesystem passes through one of these.
/// Dropping a session that is not finished deliberately leaves the journal in
/// place: an abandoned session *is* an interrupted session.
pub struct Session {
    course: Course,
}

impl View for Session {
    type V = Course;

    closed spec fn view(&self) -> Course {
        self.course
    }
}

impl Session {
    /// Open a session under a lock the program holds, over what stands at the
    /// journal's path: refuse over an unresolved interruption and over a scope
    /// entry the loader would refuse, and ask for the journal.
    ///
    /// # Errors
    ///
    /// [`Error::ForeignRecord`] when a scope entry is one the loader would
    /// refuse: the whole journal would be refused over it.
    /// [`Error::InProgress`] when a journal already stands.
    pub fn open_locked(
        path: String,
        kind: SessionKind,
        home: String,
        scope: Vec<Portable>,
        standing: &Loaded,
        ledger: Ledger,
    ) -> (r: Result<(Session, Ask), Error>)
        requires
            ledger.wf(),
        ensures
            match r {
                Err(Error::ForeignRecord { home: at, stored }) => at == home && exists|i: int|
                    0 <= i < scope@.len() && !portable_against(
                        (#[trigger] scope@[i])@,
                        home@,
                    ) && stored@ == scope@[i]@ && forall|j: int|
                        0 <= j < i ==> portable_against((#[trigger] scope@[j])@, home@),
                Err(Error::InProgress { path: at }) => at == path && (standing is Terminated
                    || standing is Unterminated || standing is Torn) && forall|j: int|
                    0 <= j < scope@.len() ==> portable_against((#[trigger] scope@[j])@, home@),
                Err(_) => false,
                Ok((session, ask)) => {
                    &&& standing is Absent || standing is Unreadable
                    &&& session@.wf()
                    &&& session@.asks(ask)
                    &&& session@.step == Step::Create
                    &&& session@.path == path
                    &&& session@.home == home
                    &&& session@.ledger == ledger
                    &&& session@.written == 0
                    &&& !session@.poisoned
                    &&& session@.touched@.len() == 0
                    &&& session@.created@.len() == 0
                    &&& session@.released@.len() == 0
                    &&& session@.forgotten@.len() == 0
                    &&& session@.appending@ matches Some(Record::Begin(begin)) && begin.kind == kind
                        && begin.home == home && begin.scope == scope
                },
            },
    {
        match scope_is_portable(scope.as_slice(), home.as_str()) {
            Err(i) => {
                let stored = scope[i].text.clone();
                assert(!portable_against(scope@[i as int]@, home@));
                return Err(Error::ForeignRecord { home, stored });
            },
            Ok(_) => {},
        }
        if standing.is_interrupted() {
            return Err(Error::InProgress { path });
        }
        let begin = Record::Begin(Begin { kind, home: home.clone(), scope });
        let ghost header = begin;
        let course = Course {
            path,
            home,
            ledger,
            written: 0,
            poisoned: false,
            touched: Vec::new(),
            created: Vec::new(),
            released: Vec::new(),
            forgotten: Vec::new(),
            step: Step::Create,
            pending: None,
            log: Ghost(Seq::empty()),
            appending: Ghost(Some(header)),
        };
        Ok((Session { course }, Ask::Create(begin)))
    }

    /// The ledger as this session has it so far.
    pub fn ledger(&self) -> (r: &Ledger)
        ensures
            *r == self@.ledger,
    {
        &self.course.ledger
    }

    /// The home the session's paths are rendered against.
    pub fn home(&self) -> (r: &str)
        ensures
            r@ == self@.home@,
    {
        self.course.home.as_str()
    }

    /// The journal this session is appending to.
    pub fn journal(&self) -> (r: &str)
        ensures
            r@ == self@.path@,
    {
        self.course.path.as_str()
    }

    /// How many writes the session has completed.
    pub fn written(&self) -> (r: usize)
        ensures
            r == self@.written,
    {
        self.course.written
    }

    /// Every directory a write in this session created.
    pub fn created(&self) -> (r: &Vec<String>)
        ensures
            *r == self@.created,
    {
        &self.course.created
    }

    /// The write or the removal in flight.
    pub fn pending(&self) -> (r: &Option<Pending>)
        ensures
            *r == self@.pending,
    {
        &self.course.pending
    }

    /// Drop a target from the ledger without touching the filesystem.
    ///
    /// For the one case `bx rm` has where there is nothing to write: bx created
    /// the file, and the file is already gone. The directories the entry
    /// claimed are handed to a surviving entry beneath them when the session
    /// finishes, and never removed here.
    pub fn forget(&mut self, target: &str)
        requires
            old(self)@.wf(),
        ensures
            final(self)@.wf(),
            old(self)@.forgets(target@, final(self)@),
    {
        if let Some(entry) = self.course.ledger.forget(target) {
            push_claims(&mut self.course.forgotten, &entry, self.course.home.as_str());
        }
    }

    /// Make `request` true at its destination: the first thing to do for it.
    ///
    /// # A failed write poisons the session
    ///
    /// Any error here leaves the session refusing everything later, so its
    /// journal stays for recovery to roll back, whatever failed and however
    /// early.
    ///
    /// # Errors
    ///
    /// [`Error::Poisoned`] when an earlier write in this session failed,
    /// [`Error::Misplaced`] when the request's destination is not where its
    /// target renders, [`Error::ForeignRecord`] when the target is spelled
    /// absolutely under the home, [`Error::StrayCreatedDir`] when a removal
    /// names a created directory that is not a parent of its destination below
    /// the home, [`Error::Repeated`] when this session already wrote the target,
    /// and [`Error::OutOfStep`] while another write is in flight.
    pub fn apply(&mut self, request: Request) -> (r: Result<Ask, Error>)
        requires
            old(self)@.wf(),
        ensures
            final(self)@.wf(),
            old(self)@.applies(request, r, final(self)@),
    {
        self.course.apply(request)
    }

    /// Report what came of the last thing asked for, and get the next.
    ///
    /// # Errors
    ///
    /// [`Error::Poisoned`] once a write failed; what the program reported as
    /// failed; [`Error::Changed`] for a destination that is not what the plan
    /// saw; [`Error::Symlink`], [`Error::NotAFile`] and [`Error::NotADir`] for
    /// one that is not to be written, removed or made a directory;
    /// [`Error::PriorConflict`] for a shared file that was changed since bx last
    /// wrote it; and [`Error::OutOfStep`] for a report that is not of what was
    /// asked. Each poisons the session.
    pub fn report(&mut self, did: Did) -> (r: Result<Ask, Error>)
        requires
            old(self)@.wf(),
        ensures
            final(self)@.wf(),
            old(self)@.reports(did, r, final(self)@),
    {
        self.course.report(did)
    }

    /// End the session: the first thing to do for it is to append its end.
    ///
    /// The end goes down first, so a crash before the save is a *terminated*
    /// journal that recovery finishes as bookkeeping, and the claimed
    /// directories are settled only once it is durable.
    ///
    /// # Errors
    ///
    /// [`Error::Poisoned`] when a write in the session failed: nothing is
    /// appended, nothing is saved, and the journal is left for recovery.
    pub fn finish(&mut self) -> (r: Result<Ask, Error>)
        requires
            old(self)@.wf(),
        ensures
            final(self)@.wf(),
            old(self)@.ends(r, final(self)@),
    {
        self.course.finish()
    }
}

/// What a session journals is believed: at every moment of a session whose home
/// is absolute, and none of whose writes had to make that home or a directory
/// above it, the records that are durable are ones the loader takes for a
/// session's.
pub proof fn a_sessions_journal_is_believed(session: Course)
    requires
        session.wf(),
        absolute(session.home@),
        all_made_below(session.log@, session.home@),
    ensures
        refused(session.log@) is None,
{
}

/// An abandoned session is an interrupted session: whenever a session stops,
/// the journal it leaves is read back as exactly the records it made durable,
/// ended if its end was one of them and interrupted if not.
pub proof fn an_abandoned_session_is_read_back(
    session: Course,
    nonce: Seq<u8>,
    payloads: Seq<Seq<u8>>,
    table: Seq<(usize, Record)>,
)
    requires
        session.wf(),
        session.step != Step::Create,
        absolute(session.home@),
        all_made_below(session.log@, session.home@),
        nonce.len() == NONCE,
        encodings(payloads),
        decodes(table, nonce, payloads, session.log@),
        journal_bytes(nonce, payloads).len() <= usize::MAX,
    ensures
        verdict(journal_bytes(nonce, payloads), table) == if ended(session.step) {
            Verdict::Terminated { records: session.log@ }
        } else {
            Verdict::Unterminated { records: session.log@ }
        },
{
    a_journal_is_read_back(nonce, payloads, session.log@, table);
}

/// A session announces no write before the one before it is completed, so a
/// write whose completion is not the very next record never landed, and only
/// the last can be one.
pub proof fn a_write_is_completed_before_the_next_is_announced(session: Course, i: int)
    requires
        session.wf(),
        0 <= i < session.log@.len(),
        session.log@[i] is Intent,
    ensures
        if i == session.log@.len() - 1 {
            after_intent(session.step)
        } else {
            session.log@[i + 1] matches Record::Done(done) && done.target@
                == session.log@[i]->Intent_0.target@
        },
{
}

/// A session counts the writes it completed, and ends by saying how many.
pub proof fn a_session_counts_what_it_completed(session: Course, ask: Ask)
    requires
        session.wf(),
        session.asks(ask),
        session.step == Step::Finished,
    ensures
        ask == Ask::Finished(completed(session.log@) as usize),
{
}

/// Nothing is touched before its intent is durable: a session that asks for a
/// publish, a directory or an unlink has, as its last durable record, the intent
/// that announces exactly that write or removal, and what was seen at the
/// destination was still what the plan saw.
pub proof fn nothing_is_touched_before_its_intent_is_durable(session: Course, ask: Ask)
    requires
        session.wf(),
        session.asks(ask),
        ask is Publish || ask is MakeDir || ask is Unlink,
    ensures
        session.pending is Some,
        session.log@.last() is Intent,
        announces(session.log@.last()->Intent_0, session.pending->0),
        unmoved(session.pending->0.planned, session.pending->0.seen->0),
{
}

/// What is announced is what is written: the digest and the mode an intent
/// announces are those of the bytes the program was handed to write.
pub proof fn an_intent_announces_what_is_written(
    session: Course,
    ask: Ask,
    later: Course,
    intent: Intent,
)
    requires
        session.wf(),
        session.step == Step::Fill,
        session.asks(ask),
        carried(session.pending->0, later.pending->0),
        later.announced(Did::Stored, intent),
    ensures
        ask matches Ask::Fill(bytes) && (intent.after matches Written::Present { digest, mode }
            && digest@ == sha256_of(bytes@) && mode == session.pending->0.mode),
{
}

/// Whether some sessions are the stages of one write or removal: each goes on to
/// the next from the report beside it, and none is idle.
pub open spec fn one_write(stages: Seq<Course>, dids: Seq<Did>) -> bool {
    &&& stages.len() == dids.len() + 1
    &&& forall|i: int|
        0 <= i < dids.len() ==> (#[trigger] stages[i]).goes_on(dids[i], stages[i + 1])
    &&& forall|i: int| 0 <= i < stages.len() ==> in_flight((#[trigger] stages[i]).step)
}

proof fn lemma_what_was_seen_stays(stages: Seq<Course>, dids: Seq<Did>, k: int)
    requires
        one_write(stages, dids),
        stages[0].step == Step::Look || stages[0].step == Step::Survey,
        1 <= k < stages.len(),
    ensures
        stages[k].step != Step::Look,
        stages[k].step != Step::Survey,
        stages[k].pending->0.seen == stages[1].pending->0.seen,
    decreases k,
{
    assert(stages[k - 1].goes_on(dids[k - 1], stages[k - 1 + 1]));
    if k > 1 {
        lemma_what_was_seen_stays(stages, dids, k - 1);
    }
}

/// The prior an intent announces is what was found at the destination: whatever
/// happens between the first look at a destination and the moment its write or
/// removal is announced, the intent that is durable names exactly what that look
/// reported, so a rollback puts back exactly that.
pub proof fn an_intent_announces_what_was_looked_at(
    stages: Seq<Course>,
    dids: Seq<Did>,
    now: Observed,
)
    requires
        one_write(stages, dids),
        dids.len() > 0,
        stages[0].step == Step::Look && dids[0] == Did::Looked(now) || stages[0].step
            == Step::Survey && dids[0] is Surveyed && dids[0]->Surveyed_observed == now,
        stages.last().wf(),
        after_intent(stages.last().step),
    ensures
        stages.last().log@.last() matches Record::Intent(intent) && is_prior(intent.before, now),
{
    assert(stages[0].goes_on(dids[0], stages[1]));
    lemma_what_was_seen_stays(stages, dids, dids.len() as int);
}

/// What the ledger comes to hold of a target bx did not hold before is what was
/// found at the destination before bx first wrote it.
pub proof fn a_new_entry_holds_what_was_looked_at(
    stages: Seq<Course>,
    dids: Seq<Did>,
    now: Observed,
    after: Course,
)
    requires
        one_write(stages, dids),
        dids.len() > 0,
        stages[0].step == Step::Look && dids[0] == Did::Looked(now) || stages[0].step
            == Step::Survey && dids[0] is Surveyed && dids[0]->Surveyed_observed == now,
        stages.last().wf(),
        stages.last().step == Step::Record,
        stages.last().goes_on(Did::Recorded, after),
        after.ledger.wf(),
        position(stages.last().ledger.entries@, stages.last().pending->0.target@) is None,
    ensures
        position(after.ledger.entries@, stages.last().pending->0.target@) matches Some(i)
            && is_prior(after.ledger.entries@[i].prior, now),
{
    let last = stages.last();
    let p = last.pending->0;
    assert(stages[0].goes_on(dids[0], stages[1]));
    lemma_what_was_seen_stays(stages, dids, dids.len() as int);
    let entry = choose|entry: LedgerEntry|
        owns(entry, p, last.home@) && #[trigger] recorded(
            last.ledger.entries@,
            entry,
            after.ledger.entries@,
        );
    let k = choose|k: int|
        0 <= k <= last.ledger.entries@.len() && after.ledger.entries@
            == #[trigger] last.ledger.entries@.insert(k, entry);
    assert(is_entry(after.ledger.entries@, p.target@, k));
    after.ledger.lemma_position(p.target@, k);
}

/// The ledger keeps the first prior of a target, whatever a session does: one it
/// holds before a report and after it is held with the same prior, so what is
/// handed back is what the user had before bx.
pub proof fn a_session_keeps_the_first_prior(
    session: Course,
    did: Did,
    after: Course,
    target: Seq<char>,
)
    requires
        session.wf(),
        after.wf(),
        session.accepts(did),
        session.goes_on(did, after),
        position(session.ledger.entries@, target) is Some,
        position(after.ledger.entries@, target) is Some,
    ensures
        after.ledger.entries@[position(after.ledger.entries@, target)->0].prior
            == session.ledger.entries@[position(session.ledger.entries@, target)->0].prior,
{
    let p = session.pending->0;
    let entries = session.ledger.entries@;
    match session.step {
        Step::Publish | Step::Unlink => {
            if let Some(i) = position(entries, p.target@) {
                assert(is_entry(entries, p.target@, i));
                if after.ledger.entries@ == entries.remove(i) {
                    a_dropped_target_leaves_the_others_theirs(
                        session.ledger,
                        i,
                        after.ledger,
                        target,
                    );
                }
            }
        },
        Step::Record => {
            let entry = choose|entry: LedgerEntry|
                owns(entry, p, session.home@) && #[trigger] recorded(
                    entries,
                    entry,
                    after.ledger.entries@,
                );
            the_first_prior_is_kept(session.ledger, entry, after.ledger, target);
        },
        Step::Settle => {
            let dirs = did->Standing_0@;
            let order = choose|order: Seq<String>| #[trigger]
                taken(dirs, false, order) && handed(
                    entries,
                    session.home@,
                    order,
                    after.ledger.entries@,
                );
            a_hand_off_keeps_every_entry(entries, session.home@, order, after.ledger.entries@);
            let i = position(entries, target)->0;
            assert(is_entry(entries, target, i));
            assert(after.ledger.entries@[i].path == entries[i].path);
            after.ledger.lemma_position(target, i);
        },
        _ => {},
    }
}

/// No claimed directory is removed, the ledger is not saved and the journal not
/// unlinked before the session's end is durable.
pub proof fn the_end_is_durable_before_the_books_are_closed(session: Course, ask: Ask)
    requires
        session.wf(),
        session.asks(ask),
        ask is Prune || ask is Save || ask is Clear,
    ensures
        session.log@.last() is End,
{
}

/// What is at a destination has not moved if and only if it is at the same path,
/// of the same kind and has the same stamp.
pub proof fn only_what_is_the_same_has_not_moved(planned: Observed, now: Observed)
    ensures
        unmoved(planned, now) <==> components(planned.path@) == components(now.path@)
            && planned.stamp == now.stamp && (planned.kind is Absent <==> now.kind is Absent) && (
        planned.kind is File <==> now.kind is File) && (planned.kind is Dir <==> now.kind is Dir)
            && (planned.kind matches Kind::Other(was) ==> (now.kind matches Kind::Other(found) && was@
            == found@)),
        components(planned.path@) != components(now.path@) ==> moved_words(planned, now)
            == "plan observed "@ + planned.path@ + ", not this path"@,
        components(planned.path@) == components(now.path@) ==> {
            &&& now.stamp is None ==> moved_words(planned, now) == "it has been removed"@
            &&& now.stamp is Some && planned.stamp is None ==> moved_words(planned, now)
                == "nothing was there, and something is now"@
            &&& now.stamp is Some && planned.stamp is Some ==> moved_words(planned, now)
                == "it has been modified or replaced"@
        },
{
}

/// A report that fails poisons the session: what the program reported as failed
/// is handed on, nothing else of the session changes, and it refuses every
/// report after it.
pub proof fn a_failed_report_poisons_the_session(
    session: Course,
    did: Did,
    r: Result<Ask, Error>,
    after: Course,
)
    requires
        session.reports(did, r, after),
    ensures
        session.poisoned ==> r is Err && r->Err_0 is Poisoned,
        did is Failed ==> r is Err,
        did is Failed && !session.poisoned ==> r == Err::<Ask, Error>(did->Failed_0),
        r is Err ==> {
            &&& after.poisoned
            &&& after.step == session.step
            &&& after.log@ == session.log@
            &&& after.ledger == session.ledger
            &&& after.written == session.written
            &&& after.created == session.created
            &&& after.released == session.released
            &&& after.forgotten == session.forgotten
            &&& after.touched == session.touched
        },
        r is Ok ==> !after.poisoned,
{
}

/// What a session asks for next is settled by what was done. A write is looked
/// at, staged, filled, what it displaces stored, its intent appended, its
/// destination looked at again, and only then published, recorded if bx owns it,
/// and completed. A removal is looked at, what it displaces stored, its intent
/// appended, its destination looked at again, and only then unlinked and
/// completed. Behind the end, claimed directories are removed, what stands is
/// settled, the ledger saved and the journal unlinked.
pub proof fn a_session_goes_on_step_by_step(
    session: Course,
    did: Did,
    r: Result<Ask, Error>,
    after: Course,
)
    requires
        session.wf(),
        after.wf(),
        session.reports(did, r, after),
        r is Ok,
    ensures
        ({
            let ask = r->Ok_0;
            let p = session.pending->0;
            let next = after.step;
            &&& session.step == Step::Create ==> ask is Nothing && next == Step::Idle
            &&& session.step == Step::Look && p.digest is Some ==> ask is Stage && next
                == Step::Stage
            &&& session.step == Step::Look && p.digest is None ==> next == Step::Keep && (
            ask matches Ask::Store(prior) && is_prior(prior, did->Looked_0))
            &&& session.step == Step::Stage ==> next == Step::Fill && (ask matches Ask::Fill(bytes)
                && Some(bytes) == p.bytes)
            &&& session.step == Step::Fill ==> next == Step::Store && (ask matches Ask::Store(prior)
                && is_prior(prior, p.seen->0))
            &&& session.step == Step::Survey ==> next == Step::Store && (ask matches Ask::Store(
                prior,
            ) && is_prior(prior, did->Surveyed_observed))
            &&& session.step == Step::Store ==> next == Step::Intend && ask is Append
                && ask->Append_0 is Intent
            &&& session.step == Step::Keep ==> next == Step::Announce && ask is Append
                && ask->Append_0 is Intent
            &&& session.step == Step::Intend || session.step == Step::Announce ==> next
                == Step::LookAgain && ask is Look
            &&& session.step == Step::LookAgain && p.digest is None ==> next == Step::Unlink
                && ask is Unlink
            &&& session.step == Step::LookAgain && p.digest is Some && !p.dir ==> next
                == Step::Publish && ask is Publish
            &&& session.step == Step::LookAgain && p.digest is Some && p.dir ==> next
                == Step::Publish && (ask matches Ask::MakeDir(dirs) && dirs@ == p.created_dirs@)
            &&& session.step == Step::Publish && p.ownership is Owned ==> next == Step::Record
                && ask is Record
            &&& session.step == Step::Publish && p.ownership is Released || session.step
                == Step::Record || session.step == Step::Unlink ==> next == Step::Complete && (
            ask matches Ask::Append(Record::Done(done)) && done.target@ == p.target@)
            &&& session.step == Step::Complete ==> next == Step::Idle && ask is Nothing
                && after.written == session.written + 1
            &&& session.step != Step::Complete ==> after.written == session.written
            &&& session.step == Step::End ==> next == Step::Prune && ask is Prune
            &&& session.step == Step::Prune ==> next == Step::Settle && (ask matches Ask::Settle(
                dirs,
            ) && dirs@ == session.released@ + session.forgotten@)
            &&& session.step == Step::Settle ==> next == Step::Save && ask is Save
            &&& session.step == Step::Save ==> next == Step::Clear && ask is Clear
            &&& session.step == Step::Clear ==> next == Step::Finished && ask == Ask::Finished(
                session.written,
            )
        }),
{
}

/// A session goes on if and only if what is reported is what was asked for, and
/// what is found is what was planned against: a look only where the destination
/// has not moved and is a file or nothing, a survey only where it has not moved
/// and is a directory or nothing.
pub proof fn a_session_goes_on_only_from_what_was_asked(
    session: Course,
    did: Did,
    r: Result<Ask, Error>,
    after: Course,
)
    requires
        session.reports(did, r, after),
        !session.poisoned,
    ensures
        ({
            let p = session.pending->0;
            &&& session.step == Step::Idle || session.step == Step::Finished ==> r is Err
            &&& session.step == Step::Create ==> (r is Ok <==> did is Created)
            &&& session.step == Step::Look ==> (r is Ok <==> (did matches Did::Looked(now)
                && unmoved(p.planned, now) && (now.kind is Absent || now.kind is File)))
            &&& session.step == Step::LookAgain ==> (r is Ok <==> (did matches Did::Looked(now)
                && unmoved(p.planned, now)))
            &&& session.step == Step::Survey ==> (r is Ok <==> (did matches Did::Surveyed {
                observed,
                missing,
            } && unmoved(p.planned, observed) && (observed.kind is Absent || observed.kind is Dir)
                && forall|j: int|
                0 <= j < missing@.len() ==> beneath(p.dest@, (#[trigger] missing@[j])@)))
            &&& session.step == Step::Stage ==> (r is Ok <==> (did matches Did::Staged {
                temp,
                created_dirs,
            } && staged_beside(temp@, p.dest@) && forall|j: int|
                0 <= j < created_dirs@.len() ==> beneath(p.dest@, (#[trigger] created_dirs@[j])@)))
            &&& session.step == Step::Store || session.step == Step::Keep ==> (r is Ok
                <==> did is Stored)
            &&& session.step == Step::Intend || session.step == Step::Announce || session.step
                == Step::Complete || session.step == Step::End ==> (r is Ok <==> did is Appended)
            &&& session.step == Step::Publish ==> (r is Ok <==> did is Published)
            &&& session.step == Step::Record ==> (r is Ok <==> did is Recorded)
            &&& session.step == Step::Unlink ==> (r is Ok <==> did is Unlinked)
            &&& session.step == Step::Prune ==> (r is Ok <==> did is Pruned)
            &&& session.step == Step::Settle ==> (r is Ok <==> did is Standing)
            &&& session.step == Step::Save ==> (r is Ok <==> did is Saved)
            &&& session.step == Step::Clear ==> (r is Ok <==> did is Cleared)
        }),
{
    let p = session.pending->0;
    if let Did::Surveyed { observed, missing } = did {
        if all_above(missing@, p.dest@) {
            assert forall|j: int| 0 <= j < missing@.len() implies beneath(
                p.dest@,
                (#[trigger] missing@[j])@,
            ) by {}
        }
        if forall|j: int| 0 <= j < missing@.len() ==> beneath(p.dest@, (#[trigger] missing@[j])@) {
            assert(all_above(missing@, p.dest@));
        }
    }
    if let Did::Staged { temp, created_dirs } = did {
        if all_above(created_dirs@, p.dest@) {
            assert forall|j: int| 0 <= j < created_dirs@.len() implies beneath(
                p.dest@,
                (#[trigger] created_dirs@[j])@,
            ) by {}
        }
        if forall|j: int|
            0 <= j < created_dirs@.len() ==> beneath(p.dest@, (#[trigger] created_dirs@[j])@) {
            assert(all_above(created_dirs@, p.dest@));
        }
    }
}

/// A file bx shares through a region is written only if it is as bx last left
/// it: where the ledger holds the target and what was seen has other bytes than
/// the ones it records, the write is refused, and any other filled write goes
/// on.
pub proof fn a_shared_file_that_was_changed_is_not_overwritten(
    session: Course,
    r: Result<Ask, Error>,
    after: Course,
    i: int,
)
    requires
        session.wf(),
        session.reports(Did::Filled, r, after),
        !session.poisoned,
        session.step == Step::Fill,
    ensures
        ({
            let p = session.pending->0;
            let shared = p.ownership matches Ownership::Owned(Mechanism::Region { .. });
            let entries = session.ledger.entries@;
            let held = 0 <= i < entries.len() && entries[i].path@ == p.target@;
            let changed = p.seen->0.bytes matches Some(bytes) && sha256_of(bytes@)
                != entries[i].written@;
            &&& shared && held && changed ==> (r matches Err(Error::PriorConflict { target })
                && target@ == p.target@)
            &&& !shared ==> r is Ok
            &&& held && !changed ==> r is Ok
            &&& (forall|j: int|
                0 <= j < entries.len() ==> (#[trigger] entries[j]).path@ != p.target@) ==> r is Ok
        }),
{
    let p = session.pending->0;
    let entries = session.ledger.entries@;
    if 0 <= i < entries.len() && entries[i].path@ == p.target@ {
        assert(is_entry(entries, p.target@, i));
        session.ledger.lemma_position(p.target@, i);
    }
    if let Some(k) = position(entries, p.target@) {
        assert(is_entry(entries, p.target@, k));
    }
}

/// What a session does not go on from, it refuses for what was found: a
/// destination that moved, one that is a link or no file where a file is to be
/// written, or no directory where one is to be made.
pub proof fn what_a_session_refuses_is_said(
    session: Course,
    did: Did,
    r: Result<Ask, Error>,
    after: Course,
)
    requires
        session.reports(did, r, after),
        !session.poisoned,
        r is Err,
    ensures
        ({
            let p = session.pending->0;
            &&& (session.step == Step::Look || session.step == Step::LookAgain) && did is Looked
                && !unmoved(p.planned, did->Looked_0) ==> (r->Err_0 matches Error::Changed {
                path,
                detail,
            } && path@ == did->Looked_0.path@ && detail@ == moved_words(p.planned, did->Looked_0))
            &&& session.step == Step::Look && did is Looked && unmoved(p.planned, did->Looked_0)
                ==> ({
                let link = did->Looked_0.kind matches Kind::Other(words) && words@ == "a symlink"@;
                &&& link && p.digest is Some ==> (r->Err_0 matches Error::Symlink { path } && path@
                    == p.dest@)
                &&& !link || p.digest is None ==> (r->Err_0 matches Error::NotAFile { path, kind }
                    && path@ == p.dest@ && kind == did->Looked_0.kind)
            })
            &&& session.step == Step::Survey && did is Surveyed && !unmoved(
                p.planned,
                did->Surveyed_observed,
            ) ==> (r->Err_0 matches Error::Changed { path, detail } && path@
                == did->Surveyed_observed.path@ && detail@ == moved_words(
                p.planned,
                did->Surveyed_observed,
            ))
            &&& session.step == Step::Survey && did is Surveyed && unmoved(
                p.planned,
                did->Surveyed_observed,
            ) && did->Surveyed_observed.kind !is Absent && did->Surveyed_observed.kind !is Dir ==> (
            r->Err_0 matches Error::NotADir { path, kind } && path@ == p.dest@ && kind
                == did->Surveyed_observed.kind)
            &&& session.step == Step::Idle && did !is Failed ==> r->Err_0 is OutOfStep
        }),
{
}

/// A request is taken if and only if no write is in flight and none has failed,
/// its destination is where its target renders, its target is portable, every
/// directory it claims is above the destination and below the home, and no
/// request was taken for its target before. A refusal is for the first of these
/// that fails.
pub proof fn a_request_is_taken_only_at_its_own_place(
    session: Course,
    request: Request,
    r: Result<Ask, Error>,
    after: Course,
)
    requires
        session.applies(request, r, after),
    ensures
        ({
            let home = session.home@;
            let dest = components(request.dest@);
            let ready = !session.poisoned && session.step == Step::Idle;
            let placed = dest == components(rendered(request.target@, home));
            let plain = portable_against(request.target@, home);
            let own = request.content matches Content::Absent { created_dirs, .. } ==> forall|j:
                int|
                0 <= j < created_dirs@.len() ==> beneath(
                    request.dest@,
                    (#[trigger] created_dirs@[j])@,
                ) && !within(home, created_dirs@[j]@);
            let new = forall|t: int|
                0 <= t < session.touched@.len() ==> (#[trigger] session.touched@[t])@
                    != request.target@;
            &&& r is Ok <==> ready && placed && plain && own && new
            &&& session.poisoned ==> (r matches Err(Error::Poisoned { path }) && path@
                == session.path@)
            &&& !session.poisoned && session.step != Step::Idle ==> r is Err && r->Err_0 is OutOfStep
            &&& ready && !placed ==> (r matches Err(Error::Misplaced { target, dest, rendered: at })
                && target@ == request.target@ && dest@ == request.dest@ && at@ == rendered(
                request.target@,
                home,
            ))
            &&& ready && placed && !plain ==> (r matches Err(
                Error::ForeignRecord { home: at, stored },
            ) && at@ == home && stored@ == request.target@)
            &&& ready && placed && plain && !own ==> r is Err && r->Err_0 is StrayCreatedDir
            &&& ready && placed && plain && own && !new ==> (r matches Err(
                Error::Repeated { target },
            ) && target@ == request.target@)
        }),
{
    let home = session.home@;
    if let Content::Absent { created_dirs, .. } = request.content {
        assert forall|j: int| 0 <= j < created_dirs@.len() implies (stray(
            (#[trigger] created_dirs@[j])@,
            request.dest@,
            home,
        ) <==> !(beneath(request.dest@, created_dirs@[j]@) && !within(home, created_dirs@[j]@))) by {}
    }
}

/// A request that is taken is what is in flight: its target, destination, mode
/// and owner, the digest of its bytes, and what it was planned against. Nothing
/// is durable for it yet, and the ledger is as it was.
pub proof fn what_is_asked_for_is_in_flight(
    session: Course,
    request: Request,
    r: Result<Ask, Error>,
    after: Course,
)
    requires
        session.applies(request, r, after),
    ensures
        after.log@ == session.log@,
        after.ledger == session.ledger,
        after.written == session.written,
        after.released == session.released,
        after.forgotten == session.forgotten,
        r is Err ==> after.poisoned && after.step == session.step,
        r is Ok ==> after.pending is Some && ({
            let p = after.pending->0;
            &&& !after.poisoned
            &&& p.target == request.target
            &&& p.dest == request.dest
            &&& p.mode == request.mode
            &&& p.ownership == request.ownership
            &&& p.temp is None
            &&& p.seen is None
            &&& p.dir <==> request.content is Dir
            &&& after.touched@ == session.touched@.push(request.target)
            &&& match request.content {
                Content::Bytes { bytes, planned } => r->Ok_0 is Look && p.planned == planned
                    && p.bytes == Some(bytes) && p.digest is Some && p.digest->0@ == sha256_of(
                    bytes@,
                ) && p.created_dirs@.len() == 0,
                Content::Absent { created_dirs, planned } => r->Ok_0 is Look && p.planned == planned
                    && p.digest is None && p.created_dirs@ == created_dirs@,
                Content::Dir { planned } => r->Ok_0 is Survey && p.planned == planned
                    && p.digest is Some && p.digest->0@ == sha256_of(Seq::empty())
                    && p.created_dirs@.len() == 0,
            }
        }),
{
}

/// An intent says what the write or the removal in flight is: where it goes,
/// through which temporary file, what it displaces and what it leaves, the
/// directories made for it, how bx is attached, and what the ledger said bx last
/// wrote there.
pub proof fn an_intent_says_what_is_in_flight(
    session: Course,
    did: Did,
    r: Result<Ask, Error>,
    after: Course,
    i: int,
)
    requires
        session.wf(),
        session.reports(did, r, after),
        r is Ok,
        session.step == Step::Store || session.step == Step::Keep,
    ensures
        r->Ok_0 matches Ask::Append(Record::Intent(intent)) && ({
            let p = session.pending->0;
            let entries = session.ledger.entries@;
            &&& intent.target@ == p.target@
            &&& intent.dest@ == p.dest@
            &&& intent.created_dirs@ == p.created_dirs@
            &&& is_prior(intent.before, p.seen->0)
            &&& p.temp is None ==> intent.temp is None
            &&& p.temp matches Some(temp) ==> intent.temp is Some && intent.temp->0@ == temp@
            &&& p.digest is None ==> intent.after is Absent && intent.mechanism is None
            &&& p.digest matches Some(wanted) ==> (intent.after matches Written::Present {
                digest,
                mode,
            } && digest@ == wanted@ && mode == p.mode) && match p.ownership {
                Ownership::Owned(mechanism) => intent.mechanism == Some(mechanism),
                Ownership::Released => intent.mechanism is None,
            }
            &&& 0 <= i < entries.len() && entries[i].path@ == p.target@
                ==> intent.ledger_written is Some && intent.ledger_written->0@
                == entries[i].written@
            &&& (forall|j: int|
                0 <= j < entries.len() ==> (#[trigger] entries[j]).path@ != p.target@)
                ==> intent.ledger_written is None
        }),
{
    let p = session.pending->0;
    let entries = session.ledger.entries@;
    if 0 <= i < entries.len() && entries[i].path@ == p.target@ {
        assert(is_entry(entries, p.target@, i));
        session.ledger.lemma_position(p.target@, i);
    }
    if let Some(k) = position(entries, p.target@) {
        assert(is_entry(entries, p.target@, k));
    }
}

/// A target a session hands back, or removes, is no longer in the ledger, and
/// every other is there as it was. The claims of the one are kept to be handed
/// on, those of the other to be removed.
pub proof fn a_released_target_leaves_the_ledger(
    session: Course,
    did: Did,
    r: Result<Ask, Error>,
    after: Course,
    i: int,
)
    requires
        session.wf(),
        after.wf(),
        session.reports(did, r, after),
        r is Ok,
        session.step == Step::Unlink || (session.step == Step::Publish
            && session.pending->0.ownership is Released),
    ensures
        ({
            let p = session.pending->0;
            let entries = session.ledger.entries@;
            &&& forall|k: int|
                0 <= k < after.ledger.entries@.len() ==> (#[trigger] after.ledger.entries@[k]).path@
                    != p.target@
            &&& 0 <= i < entries.len() && entries[i].path@ != p.target@ ==> after.ledger.entries@.contains(entries[i])
            &&& session.step == Step::Unlink ==> after.released@ == session.released@
                + p.created_dirs@ && after.forgotten@ == session.forgotten@
            &&& session.step == Step::Publish ==> after.released@ == session.released@
            &&& session.step == Step::Publish && 0 <= i < entries.len() && entries[i].path@
                == p.target@ ==> strings(
                after.forgotten@,
            ) == strings(session.forgotten@) + Seq::new(
                entries[i].created_dirs@.len(),
                |c: int| rendered(entries[i].created_dirs@[c]@, session.home@),
            )
        }),
{
    let p = session.pending->0;
    lemma_dropped(session.ledger, p.target@, after.ledger, i);
    if 0 <= i < session.ledger.entries@.len() && session.ledger.entries@[i].path@ == p.target@ {
        assert(is_entry(session.ledger.entries@, p.target@, i));
        session.ledger.lemma_position(p.target@, i);
        assert(claims_at(session.ledger.entries@[i], session.home@) =~= Seq::new(
            session.ledger.entries@[i].created_dirs@.len(),
            |c: int| rendered(session.ledger.entries@[i].created_dirs@[c]@, session.home@),
        ));
    }
}

proof fn lemma_dropped(before: Ledger, target: Seq<char>, after: Ledger, i: int)
    requires
        before.wf(),
        after.wf(),
        match position(before.entries@, target) {
            Some(k) => after.entries@ == before.entries@.remove(k),
            None => after.entries@ == before.entries@,
        },
    ensures
        forall|k: int|
            0 <= k < after.entries@.len() ==> (#[trigger] after.entries@[k]).path@ != target,
        0 <= i < before.entries@.len() && before.entries@[i].path@ != target
            ==> after.entries@.contains(before.entries@[i]),
{
    let was = before.entries@;
    let now = after.entries@;
    match position(was, target) {
        Some(k) => {
            assert(is_entry(was, target, k));
            assert forall|n: int| 0 <= n < now.len() implies (#[trigger] now[n]).path@ != target by {
                let m = if n < k {
                    n
                } else {
                    n + 1
                };
                assert(now[n] == was[m]);
                if was[m].path@ == target {
                    assert(is_entry(was, target, m));
                    before.lemma_position(target, m);
                }
            }
            if 0 <= i < was.len() && was[i].path@ != target {
                assert(now[if i < k {
                    i
                } else {
                    i - 1
                }] == was[i]);
            }
        },
        None => {
            assert forall|n: int| 0 <= n < now.len() implies (#[trigger] now[n]).path@ != target by {
                assert(!is_entry(was, target, n));
            }
            if 0 <= i < was.len() {
                assert(now[i] == was[i]);
            }
        },
    }
}

/// A target a session forgets is no longer in the ledger, every other is there
/// as it was, the claims of the one are kept to be handed on, and nothing else
/// of the session changes.
pub proof fn a_forgotten_target_leaves_the_ledger(
    session: Course,
    target: Seq<char>,
    after: Course,
    i: int,
)
    requires
        session.wf(),
        after.wf(),
        session.forgets(target, after),
    ensures
        forall|k: int|
            0 <= k < after.ledger.entries@.len() ==> (#[trigger] after.ledger.entries@[k]).path@
                != target,
        0 <= i < session.ledger.entries@.len() && session.ledger.entries@[i].path@ != target ==> after.ledger.entries@.contains(
            session.ledger.entries@[i],
        ),
        0 <= i < session.ledger.entries@.len() && session.ledger.entries@[i].path@ == target
            ==> strings(after.forgotten@) == strings(
            session.forgotten@,
        ) + Seq::new(
            session.ledger.entries@[i].created_dirs@.len(),
            |c: int| rendered(session.ledger.entries@[i].created_dirs@[c]@, session.home@),
        ),
        after.step == session.step,
        after.log@ == session.log@,
        after.pending == session.pending,
        after.poisoned == session.poisoned,
        after.written == session.written,
        after.released == session.released,
        after.created == session.created,
{
    lemma_dropped(session.ledger, target, after.ledger, i);
    if 0 <= i < session.ledger.entries@.len() && session.ledger.entries@[i].path@ == target {
        assert(is_entry(session.ledger.entries@, target, i));
        session.ledger.lemma_position(target, i);
        assert(claims_at(session.ledger.entries@[i], session.home@) =~= Seq::new(
            session.ledger.entries@[i].created_dirs@.len(),
            |c: int| rendered(session.ledger.entries@[i].created_dirs@[c]@, session.home@),
        ));
    }
}

/// What a session records is what it wrote: the ledger comes to hold the target
/// with the digest and the mode of the write and the mechanism it was asked for,
/// and with a claim on every directory made for it.
pub proof fn what_a_session_wrote_is_held(
    session: Course,
    did: Did,
    r: Result<Ask, Error>,
    after: Course,
    n: int,
) -> (i: int)
    requires
        session.wf(),
        after.wf(),
        session.reports(did, r, after),
        r is Ok,
        session.step == Step::Record,
    ensures
        0 <= i < after.ledger.entries@.len(),
        after.ledger.entries@[i].path@ == session.pending->0.target@,
        after.ledger.entries@[i].written@ == session.pending->0.digest->0@,
        after.ledger.entries@[i].mode == session.pending->0.mode,
        session.pending->0.ownership == Ownership::Owned(after.ledger.entries@[i].mechanism),
        0 <= n < session.pending->0.created_dirs@.len() ==> texts(
            after.ledger.entries@[i].created_dirs@,
        ).contains(portable(session.pending->0.created_dirs@[n]@, session.home@)),
{
    let p = session.pending->0;
    let entries = session.ledger.entries@;
    let entry = choose|entry: LedgerEntry|
        owns(entry, p, session.home@) && #[trigger] recorded(
            entries,
            entry,
            after.ledger.entries@,
        );
    let claim = portable(p.created_dirs@[n]@, session.home@);
    if 0 <= n < p.created_dirs@.len() {
        assert(texts(entry.created_dirs@)[n] == claim);
    }
    let i = what_is_recorded_is_held(session.ledger, entry, after.ledger, claim);
    if let Some(k) = position(entries, p.target@) {
        assert(is_entry(entries, p.target@, k));
        assert(entries[k].path@ == entry.path@);
    } else {
        assert forall|j: int| 0 <= j < entries.len() implies (#[trigger] entries[j]).path@
            != entry.path@ by {
            assert(!is_entry(entries, p.target@, j));
        }
    }
    i
}

/// Only a write that is recorded or released, a removal, and what still stands
/// at the end change the ledger: every other report leaves it, and the claims,
/// as they were.
pub proof fn no_other_report_changes_the_ledger(
    session: Course,
    did: Did,
    r: Result<Ask, Error>,
    after: Course,
)
    requires
        session.reports(did, r, after),
        session.step != Step::Record,
        session.step != Step::Unlink,
        session.step != Step::Settle,
        session.step != Step::Publish || session.pending->0.ownership is Owned,
    ensures
        after.ledger == session.ledger,
        after.released@ == session.released@,
        after.forgotten@ == session.forgotten@,
{
}

/// A record is durable once it was appended, behind those before it, and no
/// other report makes one durable.
pub proof fn only_an_append_makes_a_record_durable(
    session: Course,
    did: Did,
    r: Result<Ask, Error>,
    after: Course,
)
    requires
        session.reports(did, r, after),
    ensures
        r is Ok && (did is Appended || did is Created) ==> after.log@ == session.log@.push(
            session.appending@->0,
        ),
        r is Err || (did !is Appended && did !is Created) ==> after.log@ == session.log@,
{
}

/// A session ends only between two writes, none of which failed, and its end
/// counts the writes it completed.
pub proof fn a_session_ends_only_between_writes(
    session: Course,
    r: Result<Ask, Error>,
    after: Course,
)
    requires
        session.wf(),
        session.ends(r, after),
    ensures
        r is Ok <==> !session.poisoned && session.step == Step::Idle,
        r is Ok ==> (r->Ok_0 matches Ask::Append(Record::End(end)) && end.written == completed(
            session.log@,
        )) && after.step == Step::End,
        session.poisoned ==> (r matches Err(Error::Poisoned { path }) && path@ == session.path@),
        !session.poisoned && session.step != Step::Idle ==> r == Err::<Ask, Error>(Error::OutOfStep)
            && after.poisoned,
        after.log@ == session.log@,
        after.ledger == session.ledger,
{
}

/// Every completion counts one, and nothing else counts.
pub proof fn every_completion_counts_one(log: Seq<Record>, record: Record)
    ensures
        completed(Seq::empty()) == 0,
        record is Done ==> completed(log.push(record)) == completed(log) + 1,
        record !is Done ==> completed(log.push(record)) == completed(log),
{
    assert(log.push(record).drop_last() =~= log);
}

/// What is in flight stays what was asked for: over every report of a write or a
/// removal its target, destination, mode, owner and digest, what it was planned
/// against and whether it is a directory do not change; what it gathers is what
/// was reported, and stays.
pub proof fn what_is_in_flight_stays_what_was_asked_for(
    session: Course,
    did: Did,
    r: Result<Ask, Error>,
    after: Course,
)
    requires
        session.reports(did, r, after),
        r is Ok,
    ensures
        in_flight(session.step) && in_flight(after.step) ==> ({
            let was = session.pending->0;
            let now = after.pending->0;
            &&& now.target == was.target
            &&& now.dest == was.dest
            &&& now.mode == was.mode
            &&& now.ownership == was.ownership
            &&& now.planned == was.planned
            &&& now.dir == was.dir
            &&& now.digest == was.digest
            &&& did is Looked && session.step == Step::Look ==> now.seen == Some(did->Looked_0)
            &&& did is Surveyed ==> now.seen == Some(did->Surveyed_observed) && now.created_dirs
                == did->missing
            &&& did !is Surveyed && session.step != Step::Look ==> now.seen == was.seen
            &&& did !is Staged ==> now.bytes == was.bytes
            &&& did is Staged ==> now.temp == Some(did->Staged_temp) && now.created_dirs
                == did->Staged_created_dirs
            &&& did !is Staged && did !is Surveyed ==> now.temp == was.temp && now.created_dirs
                == was.created_dirs
        }),
        session.step == Step::Stage ==> after.created@ == session.created@
            + did->Staged_created_dirs@,
        session.step == Step::Publish && session.pending->0.dir ==> after.created@
            == session.created@ + session.pending->0.created_dirs@,
        session.step != Step::Stage && !(session.step == Step::Publish && session.pending->0.dir)
            ==> after.created@ == session.created@,
        after.home == session.home,
        after.path == session.path,
        after.touched == session.touched,
{
}

/// A write or a removal is in flight at every step between its request and its
/// completion, and at no other.
pub proof fn a_write_is_in_flight_until_it_is_completed(step: Step)
    ensures
        in_flight(step) <==> step != Step::Create && step != Step::Idle && step != Step::End && step
            != Step::Prune && step != Step::Settle && step != Step::Save && step != Step::Clear
            && step != Step::Finished,
{
}

} // verus!
