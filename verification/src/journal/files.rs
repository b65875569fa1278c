//! What a session does to files, decided one step at a time.
//!
//! Removing or renaming a file is made durable by opening its directory before
//! and syncing it after: an open that fails afterwards would report an error for
//! a change that has already happened.

use crate::digest::{
    byte_range, le, le_bytes, lemma_le_len, lemma_le_round_trip, sha256, sha256_of,
};
use crate::fs::{Kind, Mode, Observed};
use crate::journal::error::Error;
use crate::journal::frame::{
    encode, framed, header, journal_bytes, magic_bytes, FORMAT, MAX_FRAME, NONCE,
};
use crate::paths::{parent, parent_of};
use crate::state::{ContentHash, Prior, RestoreRef};
use crate::text::{
    begins_with, chars_of, count, counted, decimal, lemma_decimal_back, numeral_of, push_bytes,
    same_text, text_of,
};
use vstd::prelude::*;
use vstd::slice::{slice_subrange, slice_to_vec};

verus! {

/// The append-only log itself.
#[derive(Debug, PartialEq, Eq)]
pub struct Journal {
    /// Where it is.
    pub path: String,
    /// The nonce in this journal's header, which every frame's checksum covers.
    pub nonce: Vec<u8>,
}

/// What a journal is created with.
#[derive(Debug, PartialEq, Eq)]
pub struct Creation {
    /// Everything it holds at first.
    pub bytes: Vec<u8>,
    /// Its mode: it names every file it covers, so its owner alone may read it.
    pub mode: Mode,
}

impl Journal {
    /// A new journal, and what it is created with: its header, and the frame
    /// of the session's opening record, whose encoding is `begin`.
    ///
    /// They are written whole, through a rename, so an unlocked reader sees
    /// either the file that was there or the new journal with its opening record,
    /// and never an empty or half-written one.
    ///
    /// # Errors
    ///
    /// [`Error::FrameTooLarge`] for a record that cannot be framed.
    pub fn create(path: &str, begin: &[u8], nonce: Vec<u8>) -> (r: Result<
        (Journal, Creation),
        Error,
    >)
        ensures
            match r {
                Ok((journal, creation)) => begin@.len() <= MAX_FRAME && journal.path@ == path@
                    && journal.nonce == nonce && creation.bytes@ == journal_bytes(
                    nonce@,
                    seq![begin@],
                ) && creation.mode.bits == 0o600,
                Err(error) => begin@.len() > MAX_FRAME && error == (Error::FrameTooLarge {
                    len: begin@.len() as usize,
                }),
            },
    {
        let frame = match encode(begin, nonce.as_slice()) {
            None => {
                return Err(Error::FrameTooLarge { len: begin.len() });
            },
            Some(frame) => frame,
        };
        let mut bytes = magic_bytes();
        bytes.push(FORMAT);
        push_bytes(&mut bytes, nonce.as_slice());
        push_bytes(&mut bytes, frame.as_slice());
        proof {
            reveal_with_fuel(journal_bytes, 2);
            assert(seq![begin@].drop_last() =~= Seq::empty());
            assert(bytes@ =~= journal_bytes(nonce@, seq![begin@]));
        }
        let creation = Creation { bytes, mode: Mode::private_file() };
        Ok((Journal { path: path.to_owned(), nonce }, creation))
    }

    /// The journal's path.
    pub fn path(&self) -> (r: &str)
        ensures
            r@ == self.path@,
    {
        self.path.as_str()
    }

    /// The bytes that append one record, whose encoding is `payload`.
    ///
    /// They are written with one write and synced before anything the record
    /// announces is done, so a frame torn by a crash can only ever be the last
    /// bytes of the file.
    ///
    /// # Errors
    ///
    /// [`Error::FrameTooLarge`] for a record that cannot be framed.
    pub fn append(&self, payload: &[u8]) -> (r: Result<Vec<u8>, Error>)
        ensures
            match r {
                Ok(bytes) => payload@.len() <= MAX_FRAME && bytes@ == framed(
                    payload@,
                    self.nonce@,
                ),
                Err(error) => payload@.len() > MAX_FRAME && error == (Error::FrameTooLarge {
                    len: payload@.len() as usize,
                }),
            },
    {
        match encode(payload, self.nonce.as_slice()) {
            Some(frame) => Ok(frame),
            None => Err(Error::FrameTooLarge { len: payload.len() }),
        }
    }
}

/// Appending a record to a journal a session left gives the journal with that
/// record after the others.
pub proof fn an_appended_record_comes_last(
    nonce: Seq<u8>,
    payloads: Seq<Seq<u8>>,
    payload: Seq<u8>,
)
    ensures
        journal_bytes(nonce, payloads) + framed(payload, nonce) == journal_bytes(
            nonce,
            payloads.push(payload),
        ),
{
    assert(payloads.push(payload).drop_last() =~= payloads);
}

/// What a nonce is drawn from.
#[derive(Debug, PartialEq, Eq)]
pub struct Entropy {
    /// The kernel's random bytes, where it gave any.
    pub random: Option<Vec<u8>>,
    /// A number the process's own hash seed decides.
    pub seed: u64,
    /// How many sessions this process opened before.
    pub count: u64,
    /// The process.
    pub process: u32,
    /// The clock, in nanoseconds, where it can be told.
    pub now: Option<u128>,
}

/// Everything a nonce is drawn from, one after another.
pub open spec fn pool(entropy: Entropy) -> Seq<u8> {
    (match entropy.random {
        Some(random) => random@,
        None => Seq::empty(),
    }) + le(entropy.seed as nat, 8) + le(entropy.count as nat, 8) + le(entropy.process as nat, 4)
        + (match entropy.now {
        Some(now) => le(now as nat, 16),
        None => Seq::empty(),
    })
}

/// A nonce no other journal is expected to share.
///
/// It guards against damage, not an adversary, so it needs to differ between
/// sessions, not to be secret. A system that gives no random bytes still gets a
/// nonce that differs from every earlier session's, and creating a journal never
/// fails for want of one.
pub fn fresh_nonce(entropy: &Entropy) -> (r: Vec<u8>)
    ensures
        r@ == sha256_of(pool(*entropy)).subrange(0, NONCE as int),
        r@.len() == NONCE,
{
    let mut bytes: Vec<u8> = Vec::new();
    if let Some(random) = &entropy.random {
        push_bytes(&mut bytes, random.as_slice());
    }
    push_bytes(&mut bytes, le_bytes(entropy.seed as u128, 8).as_slice());
    push_bytes(&mut bytes, le_bytes(entropy.count as u128, 8).as_slice());
    push_bytes(&mut bytes, le_bytes(entropy.process as u128, 4).as_slice());
    if let Some(now) = entropy.now {
        push_bytes(&mut bytes, le_bytes(now, 16).as_slice());
    }
    assert(bytes@ =~= pool(*entropy));
    let digest = sha256(bytes.as_slice());
    slice_to_vec(slice_subrange(digest.as_slice(), 0, NONCE))
}

/// What a destination held, as an intent and the ledger describe it: bytes at a
/// mode, a directory at a mode, or nothing.
pub open spec fn is_prior(prior: Prior, observed: Observed) -> bool {
    match (observed.bytes, observed.mode) {
        (None, Some(mode)) => if observed.kind is Dir {
            prior matches Prior::Existed(reference) && reference.digest@ == sha256_of(Seq::empty())
                && reference.mode == mode && reference.len == 0
        } else {
            prior is Absent
        },
        (Some(bytes), Some(mode)) => prior matches Prior::Existed(reference) && reference.digest@
            == sha256_of(bytes@) && reference.mode == mode && reference.len == bytes@.len(),
        _ => prior is Absent,
    }
}

/// What a destination held, as an intent describes it.
pub fn prior_of(observed: &Observed) -> (r: Prior)
    ensures
        is_prior(r, *observed),
{
    match (&observed.bytes, observed.mode) {
        (Some(bytes), Some(mode)) => Prior::Existed(
            RestoreRef {
                digest: ContentHash::of(bytes.as_slice()),
                mode,
                len: bytes.len() as u64,
            },
        ),
        (None, Some(mode)) => match &observed.kind {
            Kind::Dir => {
                let none: &[u8] = &[];
                assert(none@ =~= Seq::<u8>::empty());
                Prior::Existed(RestoreRef { digest: ContentHash::of(none), mode, len: 0 })
            },
            _ => Prior::Absent,
        },
        _ => Prior::Absent,
    }
}

/// The bytes a write is about to displace, as the intent describes them, and
/// whether they are still to be stored: `held` is how many bytes the one-link
/// regular file of their name already holds.
///
/// What a rollback owes is whatever was on disk a moment ago, which for a target
/// bx already manages is bx's own previous output. Every copy is kept under its
/// digest, so a name holding the right number of bytes already holds these. A
/// directory has no bytes to keep.
pub fn store_prior(observed: &Observed, held: Option<u64>) -> (r: (Prior, bool))
    ensures
        is_prior(r.0, *observed),
        r.1 == match r.0 {
            Prior::Existed(reference) => observed.bytes is Some && held != Some(reference.len),
            Prior::Absent => false,
        },
{
    let prior = prior_of(observed);
    let store = match &prior {
        Prior::Existed(reference) => observed.bytes.is_some() && match held {
            Some(held) => held != reference.len,
            None => true,
        },
        Prior::Absent => false,
    };
    (prior, store)
}

/// What came of one call.
#[derive(Debug, PartialEq, Eq)]
pub enum Came {
    /// It was done.
    Done,
    /// There was nothing there, in words.
    NotFound(String),
    /// It failed, in words.
    Failed(String),
}

/// What is to be done next to change a name durably.
#[derive(Debug, PartialEq, Eq)]
pub enum Durably {
    /// Open this directory.
    Open(String),
    /// Make the change.
    Change,
    /// Sync the directory that was opened.
    Sync(String),
    /// Nothing: it is done.
    Done,
}

/// The directory a removal is made durable through: the one the path is in,
/// which for a bare name is the current one, and for the root is none.
pub open spec fn unlink_dir(path: Seq<char>) -> Option<Seq<char>> {
    match parent(path) {
        Some(dir) => Some(
            if dir.len() == 0 {
                "."@
            } else {
                dir
            },
        ),
        None => None,
    }
}

/// Whether an error is a failing call on `path`.
pub open spec fn fails_at(error: Error, at: Seq<char>, why: Seq<char>) -> bool {
    match error {
        Error::Io { path, source } => path@ == at && source@ == why,
        _ => false,
    }
}

/// Whether a step is what comes after a directory was opened, if there is one to
/// open, and a change was made, and the directory was synced.
pub open spec fn is_removed(
    r: Result<Durably, Error>,
    path: Seq<char>,
    opened: Option<Came>,
    removed: Option<Came>,
    synced: Option<Came>,
) -> bool {
    let dir = unlink_dir(path);
    if dir is Some && opened is None {
        r matches Ok(Durably::Open(at)) && at@ == dir->0
    } else if dir is Some && opened->0 is NotFound {
        r matches Ok(Durably::Done)
    } else if dir is Some && opened->0 is Failed {
        r matches Err(error) && fails_at(error, dir->0, opened->0->Failed_0@)
    } else {
        match removed {
            None => r matches Ok(Durably::Change),
            Some(Came::NotFound(_)) => r matches Ok(Durably::Done),
            Some(Came::Failed(why)) => r matches Err(error) && fails_at(error, path, why@),
            Some(Came::Done) => if dir is None {
                r matches Ok(Durably::Done)
            } else {
                match synced {
                    None => r matches Ok(Durably::Sync(at)) && at@ == dir->0,
                    Some(Came::Done) => r matches Ok(Durably::Done),
                    Some(Came::NotFound(why)) => r matches Err(error) && fails_at(
                        error,
                        dir->0,
                        why@,
                    ),
                    Some(Came::Failed(why)) => r matches Err(error) && fails_at(error, dir->0, why@),
                }
            },
        }
    }
}

/// Remove a file if it is there, and sync the directory it was in: what comes
/// after the calls made so far.
///
/// Absence is success: the whole recovery path is re-runnable, and a second run
/// finds what the first removed already gone. A missing directory is the same
/// absence, since nothing can be in it.
///
/// # Errors
///
/// [`Error::Io`] naming what failed. Only a failing sync is returned after the
/// file was removed.
pub fn unlink(
    path: &str,
    opened: Option<Came>,
    removed: Option<Came>,
    synced: Option<Came>,
) -> (r: Result<Durably, Error>)
    ensures
        is_removed(r, path@, opened, removed, synced),
{
    let dir = match parent_of(path) {
        Some(dir) => if chars_of(dir.as_str()).len() == 0 {
            Some(".".to_owned())
        } else {
            Some(dir)
        },
        None => None,
    };
    if let Some(dir) = &dir {
        match opened {
            None => {
                return Ok(Durably::Open(dir.clone()));
            },
            Some(Came::NotFound(_)) => {
                return Ok(Durably::Done);
            },
            Some(Came::Failed(source)) => {
                return Err(Error::Io { path: dir.clone(), source });
            },
            Some(Came::Done) => {},
        }
    }
    match removed {
        None => {
            return Ok(Durably::Change);
        },
        Some(Came::NotFound(_)) => {
            return Ok(Durably::Done);
        },
        Some(Came::Failed(source)) => {
            return Err(Error::Io { path: path.to_owned(), source });
        },
        Some(Came::Done) => {},
    }
    match dir {
        None => Ok(Durably::Done),
        Some(dir) => match synced {
            None => Ok(Durably::Sync(dir)),
            Some(Came::Done) => Ok(Durably::Done),
            Some(Came::NotFound(source)) => Err(Error::Io { path: dir, source }),
            Some(Came::Failed(source)) => Err(Error::Io { path: dir, source }),
        },
    }
}

/// Nothing is removed before its directory is open, so a removal that cannot be
/// made durable does not happen.
pub proof fn nothing_is_removed_before_its_directory_is_open(
    path: Seq<char>,
    opened: Option<Came>,
    removed: Option<Came>,
    synced: Option<Came>,
)
    requires
        is_removed(Ok(Durably::Change), path, opened, removed, synced),
    ensures
        unlink_dir(path) is None || opened == Some(Came::Done),
{
}

/// How far setting a journal aside has come.
pub open spec fn is_set_aside(
    r: Result<Durably, Error>,
    path: Seq<char>,
    opened: Option<Came>,
    moved: Option<Came>,
    synced: Option<Came>,
) -> bool {
    let dir = parent(path);
    match (dir, opened) {
        (Some(dir), None) => r matches Ok(Durably::Open(at)) && at@ == dir,
        (Some(dir), Some(Came::NotFound(why))) => r matches Err(error) && fails_at(error, dir, why@),
        (Some(dir), Some(Came::Failed(why))) => r matches Err(error) && fails_at(error, dir, why@),
        _ => match moved {
            None => r matches Ok(Durably::Change),
            Some(Came::NotFound(why)) => r matches Err(error) && fails_at(error, path, why@),
            Some(Came::Failed(why)) => r matches Err(error) && fails_at(error, path, why@),
            Some(Came::Done) => match (dir, synced) {
                (None, _) => r matches Ok(Durably::Done),
                (Some(dir), None) => r matches Ok(Durably::Sync(at)) && at@ == dir,
                (Some(_), Some(Came::Done)) => r matches Ok(Durably::Done),
                (Some(dir), Some(Came::NotFound(why))) => r matches Err(error) && fails_at(
                    error,
                    dir,
                    why@,
                ),
                (Some(dir), Some(Came::Failed(why))) => r matches Err(error) && fails_at(
                    error,
                    dir,
                    why@,
                ),
            },
        },
    }
}

/// Move a journal aside, durably, and never over one set aside earlier: what
/// comes after the calls made so far.
///
/// # Errors
///
/// [`Error::Io`] naming what failed. Only a failing sync is returned after the
/// journal was moved.
pub fn set_aside(
    path: &str,
    opened: Option<Came>,
    moved: Option<Came>,
    synced: Option<Came>,
) -> (r: Result<Durably, Error>)
    ensures
        is_set_aside(r, path@, opened, moved, synced),
{
    let dir = parent_of(path);
    if let Some(dir) = &dir {
        match opened {
            None => {
                return Ok(Durably::Open(dir.clone()));
            },
            Some(Came::NotFound(source)) => {
                return Err(Error::Io { path: dir.clone(), source });
            },
            Some(Came::Failed(source)) => {
                return Err(Error::Io { path: dir.clone(), source });
            },
            Some(Came::Done) => {},
        }
    }
    match moved {
        None => {
            return Ok(Durably::Change);
        },
        Some(Came::NotFound(source)) => {
            return Err(Error::Io { path: path.to_owned(), source });
        },
        Some(Came::Failed(source)) => {
            return Err(Error::Io { path: path.to_owned(), source });
        },
        Some(Came::Done) => {},
    }
    match (dir, synced) {
        (None, _) => Ok(Durably::Done),
        (Some(dir), None) => Ok(Durably::Sync(dir)),
        (Some(_), Some(Came::Done)) => Ok(Durably::Done),
        (Some(dir), Some(Came::NotFound(source))) => Err(Error::Io { path: dir, source }),
        (Some(dir), Some(Came::Failed(source))) => Err(Error::Io { path: dir, source }),
    }
}

/// A name a journal is set aside under: `.corrupt` behind its own, and a number
/// behind that from the second on.
pub open spec fn aside_name(path: Seq<char>, n: nat) -> Seq<char> {
    if n == 0 {
        path + ".corrupt"@
    } else {
        path + ".corrupt."@ + decimal(n)
    }
}

/// Whether the set-aside name with a number is among the names present.
pub open spec fn is_taken(path: Seq<char>, present: Seq<String>, n: nat) -> bool {
    exists|i: int| 0 <= i < present.len() && (#[trigger] present[i])@ == aside_name(path, n)
}

/// Whether a number is the one a journal is set aside under: the number after
/// the highest present, or, once the top number is present, the lowest free one.
pub open spec fn is_next_aside(path: Seq<char>, present: Seq<String>, n: nat) -> bool {
    if is_taken(path, present, u64::MAX as nat) {
        &&& !is_taken(path, present, n)
        &&& forall|m: nat| m < n ==> #[trigger] is_taken(path, present, m)
    } else {
        &&& forall|m: nat| n <= m <= u64::MAX ==> !#[trigger] is_taken(path, present, m)
        &&& n > 0 ==> is_taken(path, present, (n - 1) as nat)
    }
}

proof fn lemma_aside_names_differ(path: Seq<char>, m: nat, n: nat)
    requires
        aside_name(path, m) == aside_name(path, n),
    ensures
        m == n,
{
    reveal_strlit(".corrupt");
    reveal_strlit(".corrupt.");
    lemma_decimal_back(m);
    lemma_decimal_back(n);
    let a = aside_name(path, m);
    let b = aside_name(path, n);
    if m > 0 && n > 0 {
        let at = path.len() + 9;
        assert(a.subrange(at as int, a.len() as int) =~= decimal(m));
        assert(b.subrange(at as int, b.len() as int) =~= decimal(n));
    } else if m > 0 {
        assert(a.len() > path.len() + 9);
        assert(b.len() == path.len() + 8);
    } else if n > 0 {
        assert(b.len() > path.len() + 9);
        assert(a.len() == path.len() + 8);
    }
}

fn aside_of(path: &str, n: u64) -> (r: String)
    ensures
        r@ == aside_name(path@, n as nat),
{
    if n == 0 {
        path.to_owned().concat(".corrupt")
    } else {
        path.to_owned().concat(".corrupt.").concat(numeral_of(n as u128, 10).as_str())
    }
}

/// The number of a set-aside name, if it is one.
fn aside_number(path: &str, name: &str) -> (r: Option<u64>)
    ensures
        match r {
            Some(n) => name@ == aside_name(path@, n as nat),
            None => forall|n: nat| n <= u64::MAX ==> name@ != #[trigger] aside_name(path@, n),
        },
{
    proof {
        reveal_strlit(".corrupt");
        reveal_strlit(".corrupt.");
    }
    if same_text(name, aside_of(path, 0).as_str()) {
        return Some(0);
    }
    let front = path.to_owned().concat(".corrupt.");
    let ghost at = front@.len() as int;
    let chars = chars_of(name);
    let stem = chars_of(front.as_str());
    proof {
        assert forall|n: nat| n <= u64::MAX && name@ == #[trigger] aside_name(path@, n) implies {
            &&& n > 0
            &&& name@.len() > at
            &&& name@.subrange(0, at) == front@
            &&& name@.subrange(at, name@.len() as int) == decimal(n)
            &&& counted(decimal(n)) == Some(n)
        } by {
            lemma_decimal_back(n);
            assert(name@.subrange(0, at) =~= front@);
            assert(name@.subrange(at, name@.len() as int) =~= decimal(n));
        }
    }
    if !begins_with(name, front.as_str()) {
        return None;
    }
    let rest = text_of(slice_subrange(chars.as_slice(), stem.len(), chars.len()));
    match count(rest.as_str()) {
        None => None,
        Some(n) => {
            if same_text(name, aside_of(path, n).as_str()) {
                Some(n)
            } else {
                None
            }
        },
    }
}

/// The name a journal is moved to when it is set aside, given the names present
/// beside it. An earlier set-aside journal keeps its name.
///
/// There is none exactly where every number's name is present.
pub fn next_aside(path: &str, present: &Vec<String>) -> (r: Option<String>)
    ensures
        match r {
            Some(name) => exists|n: nat|
                n <= u64::MAX && #[trigger] is_next_aside(path@, present@, n) && name@
                    == aside_name(path@, n),
            None => forall|n: nat| n <= u64::MAX ==> #[trigger] is_taken(path@, present@, n),
        },
{
    let mut numbers: Vec<u64> = Vec::new();
    let mut next: Option<u64> = Some(0);
    let mut i: usize = 0;
    while i < present.len()
        invariant
            i <= present.len(),
            forall|k: int|
                0 <= k < numbers@.len() ==> is_taken(path@, present@, #[trigger] numbers@[k] as nat),
            forall|j: int, n: nat|
                0 <= j < i && n <= u64::MAX && (#[trigger] present@[j])@ == #[trigger] aside_name(
                    path@,
                    n,
                ) ==> numbers@.contains(n as u64),
            match next {
                None => is_taken(path@, present@, u64::MAX as nat),
                Some(next) => {
                    &&& next > 0 ==> is_taken(path@, present@, (next - 1) as nat)
                    &&& forall|k: int| 0 <= k < numbers@.len() ==> (#[trigger] numbers@[k]) < next
                },
            },
        decreases present.len() - i,
    {
        let ghost before = numbers@;
        let found = aside_number(path, present[i].as_str());
        if let Some(n) = found {
            assert(present@[i as int]@ == aside_name(path@, n as nat));
            numbers.push(n);
            assert(numbers@[before.len() as int] == n);
            match next {
                None => {},
                Some(after) => {
                    if n >= after {
                        next = n.checked_add(1);
                    }
                },
            }
        }
        proof {
            assert forall|j: int, n: nat|
                0 <= j < i + 1 && n <= u64::MAX && (#[trigger] present@[j])@
                    == #[trigger] aside_name(path@, n) implies numbers@.contains(n as u64) by {
                if j < i {
                    assert(before.contains(n as u64));
                    let k = choose|k: int| 0 <= k < before.len() && before[k] == n as u64;
                    assert(numbers@[k] == n as u64);
                } else {
                    assert(found is Some);
                    lemma_aside_names_differ(path@, n, found->0 as nat);
                    assert(numbers@[before.len() as int] == n as u64);
                }
            }
        }
        i = i + 1;
    }
    proof {
        assert forall|n: nat| n <= u64::MAX implies (#[trigger] is_taken(path@, present@, n)
            <==> numbers@.contains(n as u64)) by {
            if is_taken(path@, present@, n) {
                let j = choose|j: int|
                    0 <= j < present@.len() && (#[trigger] present@[j])@ == aside_name(path@, n);
                assert(numbers@.contains(n as u64));
            }
            if numbers@.contains(n as u64) {
                let k = choose|k: int| 0 <= k < numbers@.len() && numbers@[k] == n as u64;
                assert(is_taken(path@, present@, numbers@[k] as nat));
            }
        }
    }
    if let Some(n) = next {
        proof {
            assert(!is_taken(path@, present@, u64::MAX as nat)) by {
                if numbers@.contains(u64::MAX) {
                    let k = choose|k: int| 0 <= k < numbers@.len() && numbers@[k] == u64::MAX;
                    assert(numbers@[k] < n);
                }
            }
            assert forall|m: nat| n <= m <= u64::MAX implies !#[trigger] is_taken(
                path@,
                present@,
                m,
            ) by {
                if numbers@.contains(m as u64) {
                    let k = choose|k: int| 0 <= k < numbers@.len() && numbers@[k] == m as u64;
                    assert(numbers@[k] < n);
                }
            }
            assert(is_next_aside(path@, present@, n as nat));
        }
        return Some(aside_of(path, n));
    }
    let mut n: u64 = 0;
    loop
        invariant
            is_taken(path@, present@, u64::MAX as nat),
            forall|m: nat| m < n ==> #[trigger] is_taken(path@, present@, m),
            forall|m: nat|
                m <= u64::MAX ==> (#[trigger] is_taken(path@, present@, m) <==> numbers@.contains(
                    m as u64,
                )),
        decreases u64::MAX - n,
    {
        if !holds_number(&numbers, n) {
            assert(!is_taken(path@, present@, n as nat));
            assert(is_next_aside(path@, present@, n as nat));
            return Some(aside_of(path, n));
        }
        assert(is_taken(path@, present@, n as nat));
        if n == u64::MAX {
            return None;
        }
        n = n + 1;
    }
}

fn holds_number(numbers: &Vec<u64>, n: u64) -> (r: bool)
    ensures
        r == numbers@.contains(n),
{
    let mut i: usize = 0;
    while i < numbers.len()
        invariant
            i <= numbers.len(),
            forall|k: int| 0 <= k < i ==> numbers@[k] != n,
        decreases numbers.len() - i,
    {
        if numbers[i] == n {
            assert(numbers@[i as int] == n);
            return true;
        }
        i = i + 1;
    }
    false
}

/// A journal set aside earlier is never moved over: the name chosen is none of
/// those present.
pub proof fn an_earlier_set_aside_journal_is_kept(path: Seq<char>, present: Seq<String>, n: nat)
    requires
        is_next_aside(path, present, n),
        n <= u64::MAX,
    ensures
        forall|i: int| 0 <= i < present.len() ==> (#[trigger] present[i])@ != aside_name(path, n),
{
    assert(!is_taken(path, present, n));
}

/// What came of removing a directory.
#[derive(Debug, PartialEq, Eq)]
pub enum Rmdir {
    /// It was removed.
    Removed,
    /// It was already gone.
    Gone,
    /// It is not empty.
    NotEmpty,
    /// It is no longer a directory.
    NotDir,
    /// It failed, in words.
    Failed(String),
}

/// Whether a directory bx created is gone once its removal was tried.
///
/// A path that is no longer a directory (a symlink the user put in its place, or
/// a file where it or one of its parents was) still stands, and is no longer
/// bx's: it is left.
///
/// # Errors
///
/// [`Error::Io`] for a failure that is neither "already gone", "not empty" nor
/// "not a directory".
pub fn remove_if_empty(dir: &str, came: &Rmdir) -> (r: Result<bool, Error>)
    ensures
        match *came {
            Rmdir::Removed | Rmdir::Gone => r == Ok::<bool, Error>(true),
            Rmdir::NotEmpty | Rmdir::NotDir => r == Ok::<bool, Error>(false),
            Rmdir::Failed(why) => r matches Err(error) && fails_at(error, dir@, why@),
        },
{
    match came {
        Rmdir::Removed | Rmdir::Gone => Ok(true),
        Rmdir::NotEmpty | Rmdir::NotDir => Ok(false),
        Rmdir::Failed(source) => Err(Error::Io { path: dir.to_owned(), source: source.clone() }),
    }
}

/// Whether a directory is gone.
pub open spec fn is_gone(came: Rmdir) -> bool {
    came is Removed || came is Gone
}

/// Which of some directories bx created is to be removed next, deepest first:
/// `results` is what came of those before it. There is none once one still
/// stands, or every one is gone.
///
/// The stop is the point: a directory that has acquired anything else is no
/// longer only bx's, and removing it would delete something bx did not put there.
///
/// # Errors
///
/// [`Error::Io`] for the one that failed.
pub fn prune_dirs(dirs: &Vec<String>, results: &Vec<Rmdir>) -> (r: Result<Option<usize>, Error>)
    requires
        results@.len() <= dirs@.len(),
    ensures
        match r {
            Ok(Some(next)) => next == results@.len() && next < dirs@.len() && forall|i: int|
                0 <= i < results@.len() ==> is_gone(#[trigger] results@[i]),
            Ok(None) => (results@.len() == dirs@.len() && forall|i: int|
                0 <= i < results@.len() ==> is_gone(#[trigger] results@[i])) || exists|i: int|
                0 <= i < results@.len() && ((#[trigger] results@[i]) is NotEmpty || results@[i] is NotDir)
                    && forall|j: int| 0 <= j < i ==> is_gone(#[trigger] results@[j]),
            Err(error) => exists|i: int|
                0 <= i < results@.len() && (#[trigger] results@[i] matches Rmdir::Failed(why)
                    && fails_at(error, dirs@[i]@, why@)) && forall|j: int|
                    0 <= j < i ==> is_gone(#[trigger] results@[j]),
        },
{
    let mut i: usize = 0;
    while i < results.len()
        invariant
            i <= results.len() <= dirs.len(),
            forall|j: int| 0 <= j < i ==> is_gone(#[trigger] results@[j]),
        decreases results.len() - i,
    {
        match remove_if_empty(dirs[i].as_str(), &results[i]) {
            Ok(gone) => {
                if !gone {
                    assert(results@[i as int] is NotEmpty || results@[i as int] is NotDir);
                    return Ok(None);
                }
            },
            Err(error) => {
                assert(results@[i as int] matches Rmdir::Failed(why) && fails_at(
                    error,
                    dirs@[i as int]@,
                    why@,
                ));
                return Err(error);
            },
        }
        i = i + 1;
    }
    if results.len() < dirs.len() {
        Ok(Some(results.len()))
    } else {
        Ok(None)
    }
}

/// The boundaries a write and a session's end cross, named so a run can be
/// stopped at one.
///
/// Each is a real durability boundary rather than a convenient line: before
/// anything exists; after a temporary file exists at its final mode but holds
/// nothing; after its content is synced but the destination is untouched; after
/// the intent is durable; after the destination is replaced; after the
/// completion is durable. Two at the end, where every write has landed: after
/// the end is durable and before the claimed directories are pruned, and after
/// the ledger is saved. A boundary at the end is reached with the number of
/// writes as its index.
#[derive(Clone, Copy, Debug, PartialEq, Eq, Structural)]
pub enum Phase {
    BeforeStage,
    AfterStage,
    AfterFill,
    AfterIntent,
    AfterPublish,
    AfterDone,
    AfterEnd,
    AfterSave,
}

/// The spelling of one phase.
pub open spec fn phase_name(phase: Phase) -> Seq<char> {
    match phase {
        Phase::BeforeStage => "before-stage"@,
        Phase::AfterStage => "after-stage"@,
        Phase::AfterFill => "after-fill"@,
        Phase::AfterIntent => "after-intent"@,
        Phase::AfterPublish => "after-publish"@,
        Phase::AfterDone => "after-done"@,
        Phase::AfterEnd => "after-end"@,
        Phase::AfterSave => "after-save"@,
    }
}

/// Where, if anywhere, a run is to stop.
#[derive(Clone, Copy, Debug, PartialEq, Eq)]
pub struct Crash {
    pub at: Option<(usize, Phase)>,
}

/// Where the first colon of a text is.
pub open spec fn colon(text: Seq<char>, i: int) -> Option<int>
    decreases text.len() - i,
{
    if i >= text.len() {
        None
    } else if text[i] == ':' {
        Some(i)
    } else {
        colon(text, i + 1)
    }
}

/// The boundary a text names: a number, a colon, and the name of a phase.
pub open spec fn names_boundary(text: Seq<char>, index: usize, phase: Phase) -> bool {
    match colon(text, 0) {
        Some(i) => counted(text.subrange(0, i)) == Some(index as nat) && text.subrange(
            i + 1,
            text.len() as int,
        ) == phase_name(phase),
        None => false,
    }
}

impl Crash {
    /// The spelling of one phase.
    pub fn name(phase: Phase) -> (r: &'static str)
        ensures
            r@ == phase_name(phase),
    {
        match phase {
            Phase::BeforeStage => "before-stage",
            Phase::AfterStage => "after-stage",
            Phase::AfterFill => "after-fill",
            Phase::AfterIntent => "after-intent",
            Phase::AfterPublish => "after-publish",
            Phase::AfterDone => "after-done",
            Phase::AfterEnd => "after-end",
            Phase::AfterSave => "after-save",
        }
    }

    /// Parse `<intent-index>:<phase>`, where the phase is a [`Crash::name`].
    /// Anything else is ignored, so a stray value cannot silently turn into a
    /// stop somewhere else.
    pub fn parse(raw: &str) -> (r: Option<(usize, Phase)>)
        ensures
            match r {
                Some((index, phase)) => names_boundary(raw@, index, phase),
                None => forall|index: usize, phase: Phase| !names_boundary(raw@, index, phase),
            },
    {
        let chars = chars_of(raw);
        let mut at: usize = 0;
        while at < chars.len() && chars[at] != ':'
            invariant
                at <= chars.len(),
                colon(chars@, 0) == colon(chars@, at as int),
            decreases chars.len() - at,
        {
            at = at + 1;
        }
        if at == chars.len() {
            return None;
        }
        let number = text_of(slice_subrange(chars.as_slice(), 0, at));
        let name = text_of(slice_subrange(chars.as_slice(), at + 1, chars.len()));
        let index = match count(number.as_str()) {
            None => {
                return None;
            },
            Some(n) => n,
        };
        if index > usize::MAX as u64 {
            return None;
        }
        let phases: Vec<Phase> = vec![
            Phase::BeforeStage,
            Phase::AfterStage,
            Phase::AfterFill,
            Phase::AfterIntent,
            Phase::AfterPublish,
            Phase::AfterDone,
            Phase::AfterEnd,
            Phase::AfterSave,
        ];
        let mut i: usize = 0;
        while i < phases.len()
            invariant
                i <= phases.len(),
                phases@ == seq![
                    Phase::BeforeStage,
                    Phase::AfterStage,
                    Phase::AfterFill,
                    Phase::AfterIntent,
                    Phase::AfterPublish,
                    Phase::AfterDone,
                    Phase::AfterEnd,
                    Phase::AfterSave,
                ],
                raw@ == chars@,
                colon(chars@, 0) == Some(at as int),
                at < chars@.len(),
                counted(chars@.subrange(0, at as int)) == Some(index as nat),
                index <= usize::MAX,
                name@ == chars@.subrange(at + 1, chars@.len() as int),
                forall|j: int| 0 <= j < i ==> phase_name(#[trigger] phases@[j]) != name@,
            decreases phases.len() - i,
        {
            if same_text(Crash::name(phases[i]), name.as_str()) {
                return Some((index as usize, phases[i]));
            }
            i = i + 1;
        }
        proof {
            assert forall|index: usize, phase: Phase| !names_boundary(raw@, index, phase) by {
                assert(phases@[0] == Phase::BeforeStage);
                assert(phases@[1] == Phase::AfterStage);
                assert(phases@[2] == Phase::AfterFill);
                assert(phases@[3] == Phase::AfterIntent);
                assert(phases@[4] == Phase::AfterPublish);
                assert(phases@[5] == Phase::AfterDone);
                assert(phases@[6] == Phase::AfterEnd);
                assert(phases@[7] == Phase::AfterSave);
            }
        }
        None
    }

    /// Whether this is the boundary to stop at.
    pub fn reached(self, index: usize, phase: Phase) -> (r: bool)
        ensures
            r == (self.at == Some((index, phase))),
    {
        match self.at {
            Some((at, stop)) => at == index && stop == phase,
            None => false,
        }
    }
}

/// What an intent and the ledger say was there is what was there: the digest,
/// the mode and the length of its bytes, or the mode of a directory; and nothing
/// where there was neither.
pub proof fn a_prior_is_what_was_there(prior: Prior, observed: Observed)
    requires
        is_prior(prior, observed),
    ensures
        observed.mode is None ==> prior is Absent,
        observed.bytes is None && observed.kind !is Dir ==> prior is Absent,
        observed.mode matches Some(mode) ==> {
            &&& observed.bytes matches Some(bytes) ==> (prior matches Prior::Existed(kept)
                && kept.digest@ == sha256_of(bytes@) && kept.mode == mode && kept.len
                == bytes@.len())
            &&& observed.bytes is None && observed.kind is Dir ==> (prior matches Prior::Existed(
                kept,
            ) && kept.digest@ == sha256_of(Seq::empty()) && kept.mode == mode && kept.len == 0)
        },
{
}

/// A removal is done only once it is durable: its directory is opened, the file
/// removed, and the directory synced. A file or a directory that is not there is
/// success; whatever fails is said, with what it failed on.
pub proof fn a_removal_is_made_durable(
    r: Result<Durably, Error>,
    path: Seq<char>,
    opened: Option<Came>,
    removed: Option<Came>,
    synced: Option<Came>,
)
    requires
        is_removed(r, path, opened, removed, synced),
    ensures
        parent(path) matches Some(above) ==> ({
            let dir = if above.len() == 0 {
                "."@
            } else {
                above
            };
            &&& opened is None ==> (r matches Ok(Durably::Open(at)) && at@ == dir)
            &&& opened matches Some(Came::NotFound(_)) ==> r == Ok::<Durably, Error>(Durably::Done)
            &&& opened matches Some(Came::Failed(why)) ==> (r matches Err(
                Error::Io { path: at, source },
            ) && at@ == dir && source@ == why@)
            &&& opened == Some(Came::Done) && removed == Some(Came::Done) ==> {
                &&& synced is None ==> (r matches Ok(Durably::Sync(at)) && at@ == dir)
                &&& synced == Some(Came::Done) ==> r == Ok::<Durably, Error>(Durably::Done)
                &&& synced matches Some(Came::Failed(why)) ==> (r matches Err(
                    Error::Io { path: at, source },
                ) && at@ == dir && source@ == why@)
                &&& synced matches Some(Came::NotFound(why)) ==> (r matches Err(
                    Error::Io { path: at, source },
                ) && at@ == dir && source@ == why@)
            }
        }),
        parent(path) is None && removed == Some(Came::Done) ==> r == Ok::<Durably, Error>(
            Durably::Done,
        ),
        parent(path) is None || opened == Some(Came::Done) ==> {
            &&& removed is None ==> r == Ok::<Durably, Error>(Durably::Change)
            &&& removed matches Some(Came::NotFound(_)) ==> r == Ok::<Durably, Error>(Durably::Done)
            &&& removed matches Some(Came::Failed(why)) ==> (r matches Err(
                Error::Io { path: at, source },
            ) && at@ == path && source@ == why@)
        },
{
}

/// A journal is set aside only once that is durable: its directory is opened, it
/// is renamed, and the directory synced. Whatever fails is said, with what it
/// failed on; a journal that is not there is a failure.
pub proof fn a_journal_is_set_aside_durably(
    r: Result<Durably, Error>,
    path: Seq<char>,
    opened: Option<Came>,
    moved: Option<Came>,
    synced: Option<Came>,
)
    requires
        is_set_aside(r, path, opened, moved, synced),
    ensures
        r == Ok::<Durably, Error>(Durably::Done) ==> moved == Some(Came::Done),
        parent(path) matches Some(dir) ==> {
            &&& opened is None ==> (r matches Ok(Durably::Open(at)) && at@ == dir)
            &&& opened is Some && opened != Some(Came::Done) ==> (r matches Err(
                Error::Io { path: at, .. },
            ) && at@ == dir)
            &&& opened == Some(Came::Done) && moved == Some(Came::Done) ==> {
                &&& synced is None ==> (r matches Ok(Durably::Sync(at)) && at@ == dir)
                &&& synced == Some(Came::Done) ==> r == Ok::<Durably, Error>(Durably::Done)
                &&& synced is Some && synced != Some(Came::Done) ==> (r matches Err(
                    Error::Io { path: at, .. },
                ) && at@ == dir)
            }
        },
        parent(path) is None || opened == Some(Came::Done) ==> {
            &&& moved is None ==> r == Ok::<Durably, Error>(Durably::Change)
            &&& moved matches Some(Came::NotFound(why)) ==> (r matches Err(
                Error::Io { path: at, source },
            ) && at@ == path && source@ == why@)
            &&& moved matches Some(Came::Failed(why)) ==> (r matches Err(
                Error::Io { path: at, source },
            ) && at@ == path && source@ == why@)
        },
        parent(path) is None && moved == Some(Came::Done) ==> r == Ok::<Durably, Error>(
            Durably::Done,
        ),
{
}

/// A journal is set aside behind those set aside before it: under `.corrupt`
/// where there are none, and otherwise under a higher number than any of them,
/// while the top number is free.
pub proof fn a_journal_is_set_aside_behind_those_before_it(
    path: Seq<char>,
    present: Seq<String>,
    n: nat,
    m: nat,
    i: int,
)
    requires
        is_next_aside(path, present, n),
        m <= u64::MAX,
        forall|k: int|
            0 <= k < present.len() ==> (#[trigger] present[k])@ != path + ".corrupt."@ + decimal(
                u64::MAX as nat,
            ),
    ensures
        aside_name(path, 0) == path + ".corrupt"@,
        m > 0 ==> aside_name(path, m) == path + ".corrupt."@ + decimal(m),
        0 <= i < present.len() && present[i]@ == aside_name(path, m) ==> m < n,
        (forall|k: int, l: nat|
            0 <= k < present.len() ==> (#[trigger] present[k])@ != #[trigger] aside_name(path, l))
            ==> n == 0,
{
    assert(!is_taken(path, present, u64::MAX as nat));
    if 0 <= i < present.len() && present[i]@ == aside_name(path, m) {
        assert(is_taken(path, present, m));
    }
    if n > 0 {
        let k = choose|k: int|
            0 <= k < present.len() && (#[trigger] present[k])@ == aside_name(path, (n - 1) as nat);
        assert(present[k]@ == aside_name(path, (n - 1) as nat));
    }
}

/// A directory is gone if it was removed or was already gone, and in no other
/// case.
pub proof fn only_a_removed_directory_is_gone(came: Rmdir)
    ensures
        came is Removed ==> is_gone(came),
        came is Gone ==> is_gone(came),
        came is NotEmpty ==> !is_gone(came),
        came is NotDir ==> !is_gone(came),
        came is Failed ==> !is_gone(came),
{
}

proof fn lemma_le_injective(a: nat, b: nat, width: nat)
    requires
        a < byte_range(width),
        b < byte_range(width),
        le(a, width) == le(b, width),
    ensures
        a == b,
{
    lemma_le_round_trip(a, width);
    lemma_le_round_trip(b, width);
}

/// Everything a nonce is drawn from counts: two draws from as many random bytes
/// are from the same pool only if the random bytes, the seed, the count of
/// sessions, the process and the clock are all the same.
pub proof fn every_source_of_a_nonce_counts(a: Entropy, b: Entropy)
    requires
        pool(a) == pool(b),
        a.random is Some <==> b.random is Some,
        a.random is Some ==> a.random->0@.len() == b.random->0@.len(),
        a.now is Some <==> b.now is Some,
    ensures
        a.random is Some ==> a.random->0@ == b.random->0@,
        a.seed == b.seed,
        a.count == b.count,
        a.process == b.process,
        a.now == b.now,
{
    let n = (match a.random {
        Some(random) => random@,
        None => Seq::empty(),
    }).len() as int;
    reveal_with_fuel(byte_range, 17);
    lemma_le_len(a.seed as nat, 8);
    lemma_le_len(b.seed as nat, 8);
    lemma_le_len(a.count as nat, 8);
    lemma_le_len(b.count as nat, 8);
    lemma_le_len(a.process as nat, 4);
    lemma_le_len(b.process as nat, 4);
    if a.random is Some {
        assert(a.random->0@ =~= pool(a).subrange(0, n));
        assert(b.random->0@ =~= pool(b).subrange(0, n));
    }
    assert(le(a.seed as nat, 8) =~= pool(a).subrange(n, n + 8));
    assert(le(b.seed as nat, 8) =~= pool(b).subrange(n, n + 8));
    lemma_le_injective(a.seed as nat, b.seed as nat, 8);
    assert(le(a.count as nat, 8) =~= pool(a).subrange(n + 8, n + 16));
    assert(le(b.count as nat, 8) =~= pool(b).subrange(n + 8, n + 16));
    lemma_le_injective(a.count as nat, b.count as nat, 8);
    assert(le(a.process as nat, 4) =~= pool(a).subrange(n + 16, n + 20));
    assert(le(b.process as nat, 4) =~= pool(b).subrange(n + 16, n + 20));
    lemma_le_injective(a.process as nat, b.process as nat, 4);
    if a.now is Some {
        lemma_le_len(a.now->0 as nat, 16);
        lemma_le_len(b.now->0 as nat, 16);
        assert(le(a.now->0 as nat, 16) =~= pool(a).subrange(n + 20, n + 36));
        assert(le(b.now->0 as nat, 16) =~= pool(b).subrange(n + 20, n + 36));
        lemma_le_injective(a.now->0 as nat, b.now->0 as nat, 16);
    }
}

proof fn lemma_colon(text: Seq<char>, from: int, k: int)
    requires
        0 <= from <= k <= text.len(),
        forall|j: int| from <= j < k ==> (#[trigger] text[j]) != ':',
        k < text.len() ==> text[k] == ':',
    ensures
        colon(text, from) == if k < text.len() {
            Some(k)
        } else {
            None
        },
    decreases k - from,
{
    if from < k {
        lemma_colon(text, from + 1, k);
    }
}

/// A boundary is a number, a colon and the name of a phase: what stands before
/// the first colon counts the writes, what stands behind it is one of eight
/// names, and a text without a colon names none.
pub proof fn a_boundary_is_a_number_a_colon_and_a_phase(
    text: Seq<char>,
    k: int,
    index: usize,
    phase: Phase,
)
    requires
        0 <= k <= text.len(),
        forall|j: int| 0 <= j < k ==> (#[trigger] text[j]) != ':',
        k < text.len() ==> text[k] == ':',
    ensures
        k == text.len() ==> !names_boundary(text, index, phase),
        k < text.len() ==> (names_boundary(text, index, phase) <==> counted(text.take(k)) == Some(
            index as nat,
        ) && match phase {
            Phase::BeforeStage => text.skip(k + 1) == "before-stage"@,
            Phase::AfterStage => text.skip(k + 1) == "after-stage"@,
            Phase::AfterFill => text.skip(k + 1) == "after-fill"@,
            Phase::AfterIntent => text.skip(k + 1) == "after-intent"@,
            Phase::AfterPublish => text.skip(k + 1) == "after-publish"@,
            Phase::AfterDone => text.skip(k + 1) == "after-done"@,
            Phase::AfterEnd => text.skip(k + 1) == "after-end"@,
            Phase::AfterSave => text.skip(k + 1) == "after-save"@,
        }),
{
    lemma_colon(text, 0, k);
    if k < text.len() {
        assert(text.take(k) =~= text.subrange(0, k));
        assert(text.skip(k + 1) =~= text.subrange(k + 1, text.len() as int));
    }
}

} // verus!
