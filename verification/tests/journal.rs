use std::collections::{BTreeMap, BTreeSet};

use bx::fs::{Kind, Mode, Observed, Parent, ParentState, Stamp};
use bx::journal::claims::{hand_off_claims, prune_claims};
use bx::journal::error::Error;
use bx::journal::files::{
    fresh_nonce, next_aside, prune_dirs, remove_if_empty, set_aside, store_prior, unlink, Came,
    Crash, Durably, Entropy, Journal, Phase, Rmdir,
};
use bx::journal::frame::{
    encode, magic_bytes, seal_at, Seal, CHECK, FORMAT, HEADER, MAGIC_LEN, MAX_FRAME, NONCE, PREFIX,
};
use bx::journal::load::{
    load, load_exclusive, quarantine, sealed_frames, whole_frame_after, Decoded, Exclusive, Loaded,
    Look,
};
use bx::journal::record::{Begin, Done, End, Intent, Record, SessionKind, Written};
use bx::journal::session::{
    dir_digest, refuse_moved, Ask, Content, Did, Ownership, Request, Session,
};
use bx::paths::to_portable;
use bx::plan::interrupted::standing_of;
use bx::plan::rows::Standing;
use bx::state::{ContentHash, Ledger, LedgerEntry, Mechanism, Portable, Prior, RestoreRef};

const HOME: &str = "/home/someone";
const PATH: &str = "/home/someone/.local/state/bx/journal.mpk";

fn portable(text: &str) -> Portable {
    Portable { text: text.to_owned() }
}

type Flat = (u8, Vec<String>, Vec<Option<Vec<u8>>>, Vec<u64>);

/// A record's encoding: what the program hands the library to frame.
fn encoded(record: &Record) -> Vec<u8> {
    let flat: Flat = match record {
        Record::Begin(begin) => {
            let mut texts = vec![begin.home.clone()];
            texts.extend(begin.scope.iter().map(|path| path.text.clone()));
            let kind = match begin.kind {
                SessionKind::Apply => 0,
                SessionKind::Restore => 1,
            };
            (0, texts, vec![], vec![kind])
        }
        Record::Intent(intent) => {
            let mut texts = vec![
                intent.target.text.clone(),
                intent.dest.clone(),
                intent.temp.clone().unwrap_or_default(),
            ];
            texts.extend(intent.created_dirs.iter().cloned());
            let (before, before_mode, before_len) = match &intent.before {
                Prior::Absent => (None, 0, 0),
                Prior::Existed(reference) => (
                    Some(reference.digest.bytes.clone()),
                    reference.mode.bits,
                    reference.len,
                ),
            };
            let (after, after_mode) = match &intent.after {
                Written::Absent => (None, 0),
                Written::Present { digest, mode } => (Some(digest.bytes.clone()), mode.bits),
            };
            let ledger = intent.ledger_written.as_ref().map(|hash| hash.bytes.clone());
            let mechanism = match &intent.mechanism {
                None => 0,
                Some(Mechanism::Own) => 1,
                Some(Mechanism::Dir) => 2,
                Some(Mechanism::Region { comment }) => 3 + u64::from(u32::from(*comment)),
                Some(other) => panic!("no session here attaches as {other:?}"),
            };
            (
                1,
                texts,
                vec![before, after, ledger],
                vec![
                    u64::from(intent.temp.is_some()),
                    u64::from(before_mode),
                    before_len,
                    u64::from(after_mode),
                    mechanism,
                ],
            )
        }
        Record::Done(done) => (2, vec![done.target.text.clone()], vec![], vec![]),
        Record::End(end) => (3, vec![], vec![], vec![end.written as u64]),
    };
    rmp_serde::to_vec(&flat).expect("encodes")
}

fn mode_of(bits: u64) -> Mode {
    Mode::from_bits(u32::try_from(bits).expect("a mode"))
}

/// The record of an encoding, if it is one.
fn decoded(payload: &[u8]) -> Option<Record> {
    let (tag, texts, hashes, numbers): Flat = rmp_serde::from_slice(payload).ok()?;
    let hash = |i: usize| hashes[i].clone().map(|bytes| ContentHash { bytes });
    Some(match tag {
        0 => Record::Begin(Begin {
            kind: if numbers[0] == 0 { SessionKind::Apply } else { SessionKind::Restore },
            home: texts[0].clone(),
            scope: texts[1..].iter().map(|text| portable(text)).collect(),
        }),
        1 => Record::Intent(Intent {
            target: portable(&texts[0]),
            dest: texts[1].clone(),
            temp: (numbers[0] == 1).then(|| texts[2].clone()),
            before: match hash(0) {
                None => Prior::Absent,
                Some(digest) => Prior::Existed(RestoreRef {
                    digest,
                    mode: mode_of(numbers[1]),
                    len: numbers[2],
                }),
            },
            after: match hash(1) {
                None => Written::Absent,
                Some(digest) => Written::Present { digest, mode: mode_of(numbers[3]) },
            },
            created_dirs: texts[3..].to_vec(),
            mechanism: match numbers[4] {
                0 => None,
                1 => Some(Mechanism::Own),
                2 => Some(Mechanism::Dir),
                at => Some(Mechanism::Region {
                    comment: u32::try_from(at - 3).ok().and_then(char::from_u32).expect("a char"),
                }),
            },
            ledger_written: hash(2),
        }),
        2 => Record::Done(Done { target: portable(&texts[0]) }),
        3 => Record::End(End { written: usize::try_from(numbers[0]).expect("a count") }),
        _ => return None,
    })
}

/// What the program decodes of a journal before it is loaded.
fn table(bytes: &[u8]) -> Decoded {
    let mut out = Vec::new();
    for at in sealed_frames(bytes) {
        let Seal::Whole(end) = seal_at(bytes, at, nonce_of(bytes)) else {
            panic!("the frame at {at} is sealed")
        };
        if let Some(record) = decoded(&bytes[at + PREFIX + CHECK..end]) {
            out.push((at, record));
        }
    }
    out
}

fn nonce_of(bytes: &[u8]) -> &[u8] {
    &bytes[MAGIC_LEN + 1..HEADER]
}

/// Load a journal from its bytes.
fn read(bytes: &[u8]) -> Result<Loaded, Error> {
    load(PATH, Look::Bytes(bytes.to_vec()), table(bytes))
}

fn entropy(count: u64) -> Entropy {
    Entropy { random: None, seed: 7, count, process: 42, now: None }
}

fn create(path: &str, begin: &Begin) -> (Journal, Vec<u8>) {
    let payload = encoded(&Record::Begin(begin.clone()));
    let (journal, new) =
        Journal::create(path, &payload, fresh_nonce(&entropy(0))).expect("create");
    (journal, new.bytes)
}

fn append(journal: &Journal, bytes: &mut Vec<u8>, record: &Record) {
    bytes.extend(journal.append(&encoded(record)).expect("append"));
}

/// A journal holding these records, whatever they are.
fn raw_journal(records: &[Record]) -> Vec<u8> {
    let nonce = fresh_nonce(&entropy(1));
    let mut bytes = magic_bytes();
    bytes.push(FORMAT);
    bytes.extend_from_slice(&nonce);
    for record in records {
        bytes.extend(encode(&encoded(record), &nonce).expect("encode"));
    }
    bytes
}

fn some_begin() -> Begin {
    Begin { kind: SessionKind::Apply, home: HOME.to_owned(), scope: Vec::new() }
}

fn done(target: &str) -> Record {
    Record::Done(Done { target: portable(target) })
}

/// A target under `home`, both halves of it.
fn target(rel: &str) -> (Portable, String) {
    let dest = child(rel);
    (portable(&to_portable(&dest, HOME)), dest)
}

fn child(rel: &str) -> String {
    format!("{HOME}/{rel}")
}

fn parent(path: &str) -> &str {
    let cut = path.rfind('/').expect("an absolute path");
    if cut == 0 {
        "/"
    } else {
        &path[..cut]
    }
}

/// A filesystem, the program that acts on it for a session, and the journal.
#[derive(Default)]
struct World {
    files: BTreeMap<String, (Vec<u8>, Mode, u128)>,
    dirs: BTreeMap<String, Mode>,
    links: BTreeSet<String>,
    temps: BTreeMap<String, Vec<u8>>,
    stored: BTreeMap<Vec<u8>, Vec<u8>>,
    journal: Option<Vec<u8>>,
    writer: Option<Journal>,
    saved: Option<Ledger>,
    events: Vec<String>,
    clock: u128,
    failing: Option<&'static str>,
    /// Bytes an editor saves over the destination once a write is announced.
    meddling: Option<&'static str>,
}

impl World {
    fn new() -> World {
        let mut world = World::default();
        world.dirs.insert(HOME.to_owned(), Mode::default_dir());
        world
    }

    fn plant(&mut self, path: &str, bytes: &str, mode: Mode) {
        let mut dir = parent(path);
        while dir.len() > HOME.len() {
            self.dirs.insert(dir.to_owned(), Mode::default_dir());
            dir = parent(dir);
        }
        self.clock += 1;
        self.files.insert(path.to_owned(), (bytes.as_bytes().to_vec(), mode, self.clock));
    }

    fn peek(&self, path: &str) -> Option<(Vec<u8>, Mode)> {
        self.files.get(path).map(|(bytes, mode, _)| (bytes.clone(), *mode))
    }

    fn observe(&self, path: &str) -> Observed {
        let dir = parent(path);
        let state = match self.dirs.get(dir) {
            Some(mode) => ParentState::Present(*mode),
            None => ParentState::Absent(Mode::default_dir()),
        };
        let (kind, mode, bytes, stamp) = match self.files.get(path) {
            Some((bytes, mode, changed)) => (
                Kind::File,
                Some(*mode),
                Some(bytes.clone()),
                Some(Stamp { file: *changed, changed: i128::try_from(*changed).expect("fits") }),
            ),
            None if self.links.contains(path) => (
                Kind::Other("a symlink".to_owned()),
                Some(Mode::from_bits(0o777)),
                None,
                Some(Stamp { file: 1, changed: 1 }),
            ),
            None => match self.dirs.get(path) {
                Some(mode) => (Kind::Dir, Some(*mode), None, Some(Stamp { file: 0, changed: 0 })),
                None => (Kind::Absent, None, None, None),
            },
        };
        Observed {
            path: path.to_owned(),
            kind,
            mode,
            bytes,
            parent: Some(Parent { path: dir.to_owned(), state }),
            stamp,
        }
    }

    fn loaded(&self) -> Loaded {
        match &self.journal {
            None => load(PATH, Look::Nothing, Vec::new()).expect("load"),
            Some(bytes) => read(bytes).expect("load"),
        }
    }

    fn try_open(&mut self, kind: SessionKind, scope: Vec<Portable>) -> Result<Session, Error> {
        let ledger = self.saved.clone().unwrap_or_else(Ledger::new);
        let (mut session, ask) = Session::open_locked(
            PATH.to_owned(),
            kind,
            HOME.to_owned(),
            scope,
            &self.loaded(),
            ledger,
        )?;
        self.drive(&mut session, ask)?;
        Ok(session)
    }

    fn open(&mut self, kind: SessionKind) -> Session {
        self.try_open(kind, Vec::new()).expect("open")
    }

    fn apply(&mut self, session: &mut Session, request: Request) -> Result<(), Error> {
        let ask = session.apply(request)?;
        self.drive(session, ask).map(|_| ())
    }

    fn finish(&mut self, session: &mut Session) -> Result<usize, Error> {
        let ask = session.finish()?;
        match self.drive(session, ask)? {
            Ask::Finished(written) => Ok(written),
            other => panic!("a finished session asks {other:?}"),
        }
    }

    /// Do what a session asks, until it asks for nothing.
    fn drive(&mut self, session: &mut Session, ask: Ask) -> Result<Ask, Error> {
        let mut ask = ask;
        loop {
            let did = match &ask {
                Ask::Nothing | Ask::Finished(_) => return Ok(ask),
                other => self.act(session, other),
            };
            ask = match session.report(did) {
                Ok(next) => next,
                Err(error) => {
                    // What was staged is no use to a session that failed.
                    if let Some(temp) = session.pending().as_ref().and_then(|p| p.temp.as_ref()) {
                        self.temps.remove(temp);
                    }
                    return Err(error);
                }
            };
        }
    }

    fn missing_above(&self, dest: &str) -> Vec<String> {
        let mut missing = Vec::new();
        let mut dir = parent(dest);
        while !self.dirs.contains_key(dir) {
            missing.push(dir.to_owned());
            dir = parent(dir);
        }
        missing
    }

    fn make_dirs(&mut self, dirs: &[String]) {
        for dir in dirs {
            self.dirs.insert(dir.clone(), Mode::default_dir());
        }
    }

    fn fails(&self, what: &str) -> Option<Did> {
        (self.failing == Some(what))
            .then(|| Did::Failed(Error::Write { detail: format!("{what} failed") }))
    }

    fn act(&mut self, session: &Session, ask: &Ask) -> Did {
        let pending = session.pending().as_ref();
        let dest = pending.map(|p| p.dest.clone()).unwrap_or_default();
        match ask {
            Ask::Nothing | Ask::Finished(_) => panic!("there is nothing to do"),
            Ask::Create(record) => {
                let payload = encoded(record);
                let (writer, new) =
                    Journal::create(PATH, &payload, fresh_nonce(&entropy(2))).expect("create");
                self.writer = Some(writer);
                self.journal = Some(new.bytes);
                Did::Created
            }
            Ask::Stage => {
                let created_dirs = self.missing_above(&dest);
                self.make_dirs(&created_dirs);
                self.clock += 1;
                let temp = format!("{}/.bx-{}", parent(&dest), self.clock);
                self.temps.insert(temp.clone(), Vec::new());
                Did::Staged { temp, created_dirs }
            }
            Ask::Survey => {
                let missing = self.missing_above(&dest);
                Did::Surveyed { observed: self.observe(&dest), missing }
            }
            Ask::MakeDir(missing) => {
                if let Some(did) = self.fails("mkdir") {
                    return did;
                }
                self.make_dirs(missing);
                let mode = pending.expect("a write in flight").mode;
                self.dirs.insert(dest.clone(), mode);
                self.events.push(format!("mkdir {dest}"));
                Did::Published
            }
            Ask::Fill(bytes) => {
                let temp = pending.and_then(|p| p.temp.clone()).expect("a staged write");
                self.temps.insert(temp, bytes.clone());
                Did::Filled
            }
            Ask::Store(prior) => {
                let observed = pending.and_then(|p| p.seen.clone()).expect("seen");
                let (named, store) = store_prior(&observed, None);
                assert_eq!(&named, prior);
                if store {
                    let Prior::Existed(reference) = named else {
                        panic!("nothing is stored of nothing")
                    };
                    self.stored.insert(
                        reference.digest.bytes,
                        observed.bytes.expect("the displaced bytes"),
                    );
                }
                Did::Stored
            }
            Ask::Append(record) => {
                let what = match record {
                    Record::Begin(_) => "begin",
                    Record::Intent(_) => "intent",
                    Record::Done(_) => "done",
                    Record::End(_) => "end",
                };
                if self.failing == Some(what) {
                    let source = format!("{what} failed");
                    return Did::Failed(Error::Io { path: PATH.to_owned(), source });
                }
                let frame = self.writer.as_ref().expect("a journal").append(&encoded(record));
                self.journal.as_mut().expect("a journal").extend(frame.expect("append"));
                self.events.push(format!("sync {what}"));
                if let (Record::Intent(_), Some(bytes)) = (record, self.meddling.take()) {
                    self.plant(&dest, bytes, Mode::default_file());
                }
                Did::Appended
            }
            Ask::Publish => {
                if let Some(did) = self.fails("publish") {
                    return did;
                }
                let write = pending.expect("a write in flight");
                let temp = write.temp.clone().expect("a staged write");
                let bytes = self.temps.remove(&temp).expect("a filled write");
                self.clock += 1;
                self.files.insert(dest.clone(), (bytes, write.mode, self.clock));
                self.events.push(format!("rename {dest}"));
                Did::Published
            }
            Ask::Record if self.failing == Some("record") => {
                Did::Failed(Error::State { detail: "record failed".to_owned() })
            }
            Ask::Record => Did::Recorded,
            Ask::Look => Did::Looked(self.observe(&dest)),
            Ask::Unlink => {
                let mut opened = None;
                let mut removed = None;
                let mut synced = None;
                loop {
                    match unlink(&dest, opened.take(), removed.take(), synced.take()) {
                        Err(error) => return Did::Failed(error),
                        Ok(Durably::Done) => return Did::Unlinked,
                        Ok(Durably::Open(dir)) => {
                            self.events.push(format!("open {dir}"));
                            opened = Some(Came::Done);
                        }
                        Ok(Durably::Change) => {
                            opened = Some(Came::Done);
                            removed = Some(if self.failing == Some("unlink") {
                                Came::Failed("Permission denied".to_owned())
                            } else if self.files.remove(&dest).is_some() {
                                self.events.push(format!("unlink {dest}"));
                                Came::Done
                            } else {
                                Came::NotFound("No such file".to_owned())
                            });
                        }
                        Ok(Durably::Sync(dir)) => {
                            self.events.push(format!("sync {dir}"));
                            opened = Some(Came::Done);
                            removed = Some(Came::Done);
                            synced = Some(Came::Done);
                        }
                    }
                }
            }
            Ask::Prune(dirs) => {
                for dir in dirs {
                    let under = format!("{dir}/");
                    let held = self.files.keys().chain(self.dirs.keys()).any(|at| at.starts_with(&under));
                    let came = if held { Rmdir::NotEmpty } else { Rmdir::Removed };
                    if remove_if_empty(dir, &came).expect("a directory is removed or left") {
                        self.dirs.remove(dir);
                    }
                }
                Did::Pruned
            }
            Ask::Settle(dirs) => Did::Standing(
                dirs.iter().filter(|dir| self.dirs.contains_key(*dir)).cloned().collect(),
            ),
            Ask::Save => {
                self.saved = Some(session.ledger().clone());
                Did::Saved
            }
            Ask::Clear => {
                self.journal = None;
                Did::Cleared
            }
        }
    }

    /// A write request, carrying what is there now as the plan's observation.
    fn write_to(&self, rel: &str, bytes: &str, mode: Mode) -> Request {
        let (target, dest) = target(rel);
        let planned = self.observe(&dest);
        Request {
            target,
            dest,
            content: Content::Bytes { bytes: bytes.as_bytes().to_vec(), planned },
            mode,
            ownership: Ownership::Owned(Mechanism::Own),
        }
    }

    /// A directory request, planned against what is there now.
    fn dir_to(&self, rel: &str, mode: Mode) -> Request {
        let (target, dest) = target(rel);
        let planned = self.observe(&dest);
        Request {
            target,
            dest,
            content: Content::Dir { planned },
            mode,
            ownership: Ownership::Owned(Mechanism::Dir),
        }
    }

    fn removal(&self, rel: &str, dirs: &[&str]) -> Request {
        let (target, dest) = target(rel);
        let planned = self.observe(&dest);
        Request {
            target,
            dest,
            content: Content::Absent {
                created_dirs: dirs.iter().map(|dir| child(dir)).collect(),
                planned,
            },
            mode: Mode::default_file(),
            ownership: Ownership::Released,
        }
    }

    fn at(&self, event: &str) -> usize {
        self.events.iter().position(|found| found == event).expect(event)
    }

    fn manages(&self, target: &str) -> bool {
        self.saved.as_ref().is_some_and(|ledger| ledger.find(target).is_some())
    }
}

#[test]
fn a_record_round_trips_through_a_frame() {
    let begin = Begin {
        kind: SessionKind::Restore,
        home: "/home/someone".to_owned(),
        scope: vec![portable("~/.bashrc")],
    };
    let done = Record::Done(Done { target: portable("~/.bashrc") });

    let (journal, mut bytes) = create("journal.mpk", &begin);
    append(&journal, &mut bytes, &done);

    let loaded = read(&bytes).expect("load");
    assert_eq!(loaded, Loaded::Unterminated(vec![Record::Begin(begin), done]));
}

#[test]
fn the_journal_is_created_whole_at_0600_and_replaces_whatever_was_there() {
    let path = "journal.mpk";
    let mut files = BTreeMap::new();
    files.insert(path.to_owned(), (b"not a journal at all".to_vec(), Mode::default_file()));

    let payload = encoded(&Record::Begin(some_begin()));
    let (journal, new) =
        Journal::create(path, &payload, fresh_nonce(&entropy(0))).expect("create");
    assert_eq!(journal.path(), path);
    files.insert(journal.path().to_owned(), (new.bytes, new.mode));
    let (bytes, mode) = files.get(path).expect("the journal");
    assert_eq!(*mode, Mode::private_file());
    assert!(bytes.starts_with(b"BXJRNL\0"), "the previous bytes are gone");
    assert_eq!(
        read(bytes).expect("load"),
        Loaded::Unterminated(vec![Record::Begin(some_begin())]),
        "and it exists whole, header and Begin, from its first instant",
    );
}

#[test]
fn a_fresh_state_directory_has_no_session() {
    assert_eq!(load(PATH, Look::Nothing, Vec::new()).expect("load"), Loaded::Absent);
}

#[test]
fn a_short_journal_that_is_not_the_start_of_a_header_is_unreadable() {
    // Too short for a header, like a torn one, but not a prefix of one.
    assert!(matches!(read(b"BY").expect("load"), Loaded::Unreadable { .. }));
}

#[test]
fn a_journal_with_a_bad_header_is_moved_aside_by_the_lock_holder_and_read_as_absent() {
    let bytes = b"GARBAGE!".to_vec();
    assert_eq!(
        read(&bytes).expect("load"),
        Loaded::Unreadable { moved_to: None },
        "a read without the lock moves nothing",
    );
    assert_eq!(
        load_exclusive(PATH, Look::Bytes(bytes), Vec::new()).expect("load"),
        Exclusive::SetAside("it does not start with a bx journal header"),
    );
    let aside = format!("{PATH}.corrupt");
    let loaded = quarantine(PATH, Ok(aside.clone())).expect("load");
    assert_eq!(loaded, Loaded::Unreadable { moved_to: Some(aside) });
    assert!(loaded.records().is_empty());
    assert!(!loaded.is_interrupted(), "it is read exactly as absent");
}

#[test]
fn a_journal_from_a_future_format_is_refused_and_never_moved_aside() {
    let (_, mut bytes) = create("journal.mpk", &some_begin());
    bytes[MAGIC_LEN] = FORMAT + 1;
    let refused = [
        read(&bytes).expect_err("load"),
        load_exclusive(PATH, Look::Bytes(bytes.clone()), table(&bytes)).expect_err("exclusive"),
    ];
    for err in refused {
        assert_eq!(err, Error::FutureVersion {
                path: PATH.to_owned(),
                found: FORMAT + 1,
                supported: FORMAT,
            });
        assert!(err.text().contains("run a bx at least as new"), "{}", err.text());
    }
}

#[test]
fn a_journal_from_an_older_format_is_unreadable() {
    let mut bytes = magic_bytes();
    bytes.push(FORMAT - 1);
    bytes.extend_from_slice(&[0; NONCE]);
    assert_eq!(read(&bytes).expect("load"), Loaded::Unreadable { moved_to: None });
}

#[test]
fn a_run_of_nul_bytes_is_not_a_valid_frame() {
    let mut bytes = magic_bytes();
    bytes.push(FORMAT);
    bytes.extend(std::iter::repeat_n(0_u8, 4096));
    // Nothing decodes, so the journal carries no information at all.
    assert!(matches!(read(&bytes).expect("load"), Loaded::Unreadable { .. }));
}

#[test]
fn a_zero_length_frame_is_refused_before_its_checksum_is_taken() {
    let nonce = fresh_nonce(&entropy(0));
    let mut bytes = magic_bytes();
    bytes.push(FORMAT);
    bytes.extend_from_slice(&nonce);
    bytes.extend(encode(&encoded(&Record::Begin(some_begin())), &nonce).expect("encode"));
    let tail = 64 * 1024;
    bytes.extend(std::iter::repeat_n(0_u8, tail));

    let decoded = table(&bytes);
    assert!(
        !whole_frame_after(&bytes, HEADER, &nonce, &decoded),
        "a zero-filled tail holds no whole frame",
    );
    // A zero length is refused even under a checksum that would hold.
    let empty = encode(b"", &nonce).expect("encode");
    assert_eq!(empty.len(), PREFIX + CHECK);
    assert_eq!(seal_at(&empty, 0, &nonce), Seal::Broken);
}

#[test]
fn nul_bytes_after_a_whole_frame_are_a_torn_tail() {
    let (_, mut bytes) = create("journal.mpk", &some_begin());
    bytes.extend(std::iter::repeat_n(0_u8, 512));
    let torn = || Loaded::Torn { records: vec![Record::Begin(some_begin())], discarded: 512 };
    assert_eq!(read(&bytes).expect("load"), torn());
    let table = table(&bytes);
    assert_eq!(
        load_exclusive(PATH, Look::Bytes(bytes), table).expect("load"),
        Exclusive::Loaded(torn()),
        "the lock holder does not set a torn journal aside before recovery rolls it back",
    );
}

#[test]
fn a_damaged_frame_is_a_torn_tail_only_when_no_whole_frame_follows_it() {
    let (journal, mut whole) = create("journal.mpk", &some_begin());
    append(&journal, &mut whole, &done("~/.a"));
    let last = whole.len();
    append(&journal, &mut whole, &done("~/.b"));

    // The last frame's body, one byte flipped: its checksum fails.
    let mut flipped = whole.clone();
    flipped[whole.len() - 1] ^= 0x01;
    // The last frame zero-filled in place, length and checksum included.
    let mut zeroed = whole.clone();
    zeroed[last..].fill(0);
    for (case, bytes) in [("flipped", flipped), ("zeroed", zeroed)] {
        assert_eq!(
            read(&bytes).expect("load"),
            Loaded::Torn {
                records: vec![Record::Begin(some_begin()), done("~/.a")],
                discarded: whole.len() - last,
            },
            "{case}",
        );
    }

    // The middle frame's body, one byte flipped: `.b` is whole after it.
    let mut middle = whole.clone();
    middle[last - 1] ^= 0x01;
    assert_eq!(read(&middle).expect("load"), Loaded::Unreadable { moved_to: None });
}

#[test]
fn a_header_with_nothing_after_it_is_an_empty_interrupted_session() {
    let mut header = magic_bytes();
    header.push(FORMAT);
    assert_eq!(read(&header).expect("load"), Loaded::Unterminated(Vec::new()));
}

#[test]
fn a_journal_truncated_at_any_byte_offset_keeps_every_whole_frame() {
    let records = [
        Record::Begin(Begin {
            kind: SessionKind::Apply,
            home: "/home/someone".to_owned(),
            scope: vec![portable("~/.a")],
        }),
        done("~/.a"),
        done("~/.b"),
        Record::End(End { written: 2 }),
    ];
    // Record the length after each frame, so "every whole frame" is an exact
    // expectation rather than an approximation.
    let Record::Begin(begin) = &records[0] else {
        unreachable!("the first record is the header")
    };
    let (journal, mut whole) = create("source.mpk", begin);
    let mut boundaries: Vec<usize> = Vec::new();
    for (at, record) in records.iter().enumerate() {
        if at > 0 {
            append(&journal, &mut whole, record);
        }
        boundaries.push(whole.len());
    }

    for cut in 0..=whole.len() {
        let loaded = read_cut(&whole[..cut]);
        // A cut inside the header is a session that wrote nothing. A cut inside
        // the Begin is damage no crash leaves, because the journal is created
        // whole. A cut anywhere later keeps every whole frame, and says how much
        // it discarded.
        let kept: usize = boundaries.iter().filter(|end| **end <= cut).count();
        let expected = if cut <= HEADER {
            Loaded::Unterminated(Vec::new())
        } else if kept == 0 {
            Loaded::Unreadable { moved_to: None }
        } else if kept == records.len() {
            Loaded::Terminated(records.to_vec())
        } else if boundaries[kept - 1] == cut {
            Loaded::Unterminated(records[..kept].to_vec())
        } else {
            Loaded::Torn {
                records: records[..kept].to_vec(),
                discarded: cut - boundaries[kept - 1],
            }
        };
        assert_eq!(loaded, expected, "cut at {cut}");
    }
}

fn read_cut(bytes: &[u8]) -> Loaded {
    let table = if bytes.len() < HEADER { Vec::new() } else { table(bytes) };
    load(PATH, Look::Bytes(bytes.to_vec()), table).expect("load")
}

#[test]
fn every_frame_carries_a_checksum_of_its_nonce_length_and_body() {
    let nonce = fresh_nonce(&entropy(0));
    let frame = encode(b"a record", &nonce).expect("encode");
    assert_eq!(&frame[..PREFIX], 8u32.to_le_bytes());
    assert_eq!(&frame[PREFIX + CHECK..], b"a record");
    let sum = ContentHash::of(&[&nonce[..], &8u32.to_le_bytes()[..], b"a record"].concat());
    assert_eq!(&frame[PREFIX..PREFIX + CHECK], &sum.bytes[..CHECK]);
    assert_eq!(seal_at(&frame, 0, &nonce), Seal::Whole(frame.len()));
    for at in 0..frame.len() {
        let mut damaged = frame.clone();
        damaged[at] ^= 0x01;
        assert!(!matches!(seal_at(&damaged, 0, &nonce), Seal::Whole(_)), "byte {at}");
    }
}

#[test]
fn a_frame_copied_from_another_sessions_journal_does_not_validate() {
    let one = fresh_nonce(&entropy(1));
    let two = fresh_nonce(&entropy(2));
    assert_ne!(one, two);
    let frame = encode(b"a record", &one).expect("encode");
    assert_eq!(seal_at(&frame, 0, &one), Seal::Whole(frame.len()));
    assert_eq!(seal_at(&frame, 0, &two), Seal::Broken);
}

#[test]
fn a_nonce_is_the_head_of_the_digest_of_all_it_is_drawn_from() {
    let drawn = Entropy {
        random: Some(vec![9; 16]),
        seed: 1,
        count: 2,
        process: 3,
        now: Some(4),
    };
    let mut pool = vec![9; 16];
    pool.extend(1u64.to_le_bytes());
    pool.extend(2u64.to_le_bytes());
    pool.extend(3u32.to_le_bytes());
    pool.extend(4u128.to_le_bytes());
    assert_eq!(fresh_nonce(&drawn), ContentHash::of(&pool).bytes[..NONCE].to_vec());
    let dry = Entropy { random: None, seed: 1, count: 2, process: 3, now: None };
    assert_eq!(fresh_nonce(&dry), ContentHash::of(&pool[16..36]).bytes[..NONCE].to_vec());
}

#[test]
fn a_frame_length_is_bounded_at_max_frame_inclusive() {
    let nonce = [7; NONCE];
    let prefix = |len: usize| {
        let mut bytes = u32::try_from(len).expect("fits").to_le_bytes().to_vec();
        bytes.extend_from_slice(&[0; CHECK]);
        bytes
    };
    assert!(
        matches!(seal_at(&prefix(MAX_FRAME + 1), 0, &nonce), Seal::Broken),
        "past the bound is garbage however many bytes follow",
    );
    assert!(
        matches!(seal_at(&prefix(MAX_FRAME), 0, &nonce), Seal::Torn),
        "at the bound it is a length, and the body is missing",
    );
    let wide = vec![0; MAX_FRAME + 1];
    let (journal, _) = create("journal.mpk", &some_begin());
    assert_eq!(
        journal.append(&wide),
        Err(Error::FrameTooLarge { len: MAX_FRAME + 1 })
    );
    assert_eq!(
        Journal::create("journal.mpk", &wide, nonce.to_vec()).expect_err("too large").text(),
        "a journal record of 16777217 bytes exceeds the 16777216-byte frame limit",
    );
}

#[test]
fn opening_a_session_over_an_unresolved_interruption_is_refused() {
    let mut world = World::new();
    drop(world.open(SessionKind::Apply));

    let err = world
        .try_open(SessionKind::Apply, Vec::new())
        .err()
        .expect("a session over an interruption must be refused");
    let Error::InProgress { path } = &err else {
        panic!("got {}", err.text())
    };
    assert_eq!(path, PATH);
    assert!(err.text().contains("recovered"));
}

#[test]
fn a_session_names_its_home_and_its_journal() {
    let mut world = World::new();
    let session = world.open(SessionKind::Apply);
    assert_eq!(session.home(), HOME);
    assert_eq!(session.journal(), PATH);
    assert_eq!(session.written(), 0);
}

#[test]
fn a_scope_entry_the_loader_would_refuse_is_refused_before_the_journal_exists() {
    let mut world = World::new();
    let absolute = portable(&child(".gitconfig"));
    let (vimrc, dest) = target(".vimrc");
    let err = world
        .try_open(SessionKind::Apply, vec![vimrc.clone(), absolute.clone()])
        .err()
        .expect("a scope entry the loader refuses");
    assert_eq!(
        err,
        Error::ForeignRecord { home: HOME.to_owned(), stored: absolute.text.clone() }
    );
    assert!(world.journal.is_none(), "and no journal was written for it to refuse");

    // The same scope, written past the refusal, is what the refusal buys: the
    // loader disbelieves the whole file, so nothing in it is undone.
    let mut session = world.open(SessionKind::Apply);
    let request = world.write_to(".vimrc", "bx\n", Mode::default_file());
    world.apply(&mut session, request).expect("apply");
    assert!(
        matches!(world.loaded(), Loaded::Unterminated(_) | Loaded::Torn { .. }),
        "the well-formed session's journal is believed",
    );
    let bytes = raw_journal(&[
        Record::Begin(Begin { scope: vec![absolute], ..some_begin() }),
        Record::Intent(removal_intent(&vimrc, &dest)),
    ]);
    assert!(
        matches!(read(&bytes).expect("load"), Loaded::Unreadable { .. }),
        "one unportable scope entry makes the whole journal unreadable",
    );
    assert_ne!(world.journal, Some(bytes));
}

#[test]
fn a_journal_without_an_end_record_is_an_interrupted_session() {
    let mut world = World::new();
    world.plant(&child(".conf"), "old\n", Mode::default_file());
    let mut session = world.open(SessionKind::Apply);
    let request = world.write_to(".conf", "new\n", Mode::default_file());
    world.apply(&mut session, request).expect("apply");
    // Dropped, never finished: an abandoned session *is* an interrupted one.
    drop(session);

    let loaded = world.loaded();
    assert!(loaded.is_interrupted());
    assert!(matches!(loaded, Loaded::Unterminated(_)));
    assert_eq!(loaded.intents().len(), 1);
    assert_eq!(loaded.begin().expect("a header").kind, SessionKind::Apply);
    let landed = loaded.landed();
    assert_eq!(landed.len(), 1);
    assert!(landed[0].1, "the write has its completion");
}

#[test]
fn a_session_that_finishes_leaves_no_journal_and_a_saved_ledger() {
    let mut world = World::new();
    let mut session = world.open(SessionKind::Apply);
    assert!(world.journal.is_some(), "the journal exists while in flight");
    assert!(world.saved.is_none(), "the ledger is not saved until the session ends");
    let request = world.write_to(".conf", "new\n", Mode::default_file());
    world.apply(&mut session, request).expect("apply");
    assert_eq!(session.written(), 1);
    assert!(
        world.saved.is_none(),
        "still not saved: a rollback must find the ledger as it was",
    );
    assert_eq!(world.finish(&mut session), Ok(1));
    assert!(world.journal.is_none(), "unlinked last");
    assert_eq!(world.loaded(), Loaded::Absent);
    assert_eq!(world.peek(&child(".conf")), Some((b"new\n".to_vec(), Mode::default_file())));
    let ledger = world.saved.expect("saved");
    let entry = &ledger.entries[ledger.find("~/.conf").expect("managed")];
    assert_eq!(entry.written, ContentHash::of(b"new\n"));
    assert_eq!(entry.mode, Mode::default_file());
    assert_eq!(entry.mechanism, Mechanism::Own);
}

#[test]
fn two_identical_sessions_produce_journals_that_differ_only_in_temp_paths() {
    let dest = child(".conf");
    let mut world = World::new();
    let mut run = || -> Vec<Record> {
        world.plant(&dest, "old\n", Mode::default_file());
        world.journal = None;
        let mut session = world.open(SessionKind::Apply);
        let request = world.write_to(".conf", "new\n", Mode::default_file());
        world.apply(&mut session, request).expect("apply");
        drop(session);
        world.loaded().records().to_vec()
    };

    let mut first = run();
    let mut second = run();
    assert_ne!(first, second);
    for records in [&mut first, &mut second] {
        for record in records.iter_mut() {
            if let Record::Intent(intent) = record {
                let temp = intent.temp.take().expect("a write stages a temp file");
                assert!(
                    temp.rsplit('/').next().is_some_and(|name| name.starts_with(".bx-")),
                    "{temp} should be an attributable bx temporary file",
                );
                assert_eq!(parent(&temp), parent(&dest), "staged beside the destination");
            }
        }
    }
    assert_eq!(first, second);
}

#[test]
fn a_write_records_the_prior_bytes_and_the_created_directories() {
    let mut world = World::new();
    world.plant(&child(".conf"), "old\n", Mode::default_file());
    let mut session = world.open(SessionKind::Apply);
    let request = world.write_to(".conf", "new\n", Mode::default_file());
    world.apply(&mut session, request).expect("apply");
    let request = world.write_to(".config/deep/new.conf", "made\n", Mode::private_file());
    world.apply(&mut session, request).expect("apply");
    drop(session);

    let loaded = world.loaded();
    let intents: Vec<&Intent> = loaded.intents();
    assert_eq!(intents.len(), 2);

    assert!(!intents[0].creates());
    let Prior::Existed(reference) = &intents[0].before else {
        panic!("the first write displaced a file")
    };
    assert_eq!(reference.digest, ContentHash::of(b"old\n"));
    assert_eq!(reference.mode, Mode::default_file());
    assert_eq!(
        intents[0].after,
        Written::Present { digest: ContentHash::of(b"new\n"), mode: Mode::default_file() },
    );
    assert!(intents[0].created_dirs.is_empty());
    assert_eq!(intents[0].mechanism, Some(Mechanism::Own));

    assert!(intents[1].creates());
    assert_eq!(
        intents[1].created_dirs,
        vec![child(".config/deep"), child(".config")],
        "deepest first, which is the order a reversal removes them in",
    );
    // The prior bytes are durable before the rename, so the rollback a crash
    // needs can always complete.
    assert!(
        world.stored.contains_key(&reference.digest.bytes),
        "the displaced bytes are content-addressed in restore/",
    );
}

#[test]
fn a_repeat_write_records_the_bytes_it_displaced_not_the_ledgers_first_prior() {
    let mut world = World::new();
    world.plant(&child(".conf"), "the user's\n", Mode::default_file());
    let mut first = world.open(SessionKind::Apply);
    let request = world.write_to(".conf", "one\n", Mode::default_file());
    world.apply(&mut first, request).expect("apply");
    world.finish(&mut first).expect("finish");

    let mut second = world.open(SessionKind::Apply);
    let request = world.write_to(".conf", "two\n", Mode::default_file());
    world.apply(&mut second, request).expect("apply");
    drop(second);

    // The ledger answers "what did the user have before bx?" and keeps the first
    // prior. The journal answers "what was on disk a moment ago?" and must not.
    let saved = world.saved.as_ref().expect("a saved ledger");
    let entry = &saved.entries[saved.find("~/.conf").expect("managed")];
    let Prior::Existed(first_prior) = &entry.prior else {
        panic!("the ledger keeps the user's original")
    };
    assert_eq!(first_prior.digest, ContentHash::of(b"the user's\n"));

    let loaded = world.loaded();
    let intents = loaded.intents();
    let Prior::Existed(displaced) = &intents[0].before else {
        panic!("the second write displaced a file")
    };
    assert_eq!(
        displaced.digest,
        ContentHash::of(b"one\n"),
        "the rollback snapshot is bx's own previous output",
    );
    assert_eq!(intents[0].ledger_written, Some(ContentHash::of(b"one\n")));
    assert!(world.stored.contains_key(&displaced.digest.bytes));
}

#[test]
fn a_released_target_leaves_its_prior_bytes_behind_but_no_ledger_entry() {
    let mut world = World::new();
    world.plant(&child(".conf"), "mine\n", Mode::default_file());
    let mut session = world.open(SessionKind::Apply);
    let mut request = world.write_to(".conf", "yours\n", Mode::default_file());
    request.ownership = Ownership::Released;
    world.apply(&mut session, request).expect("apply");
    assert!(session.ledger().find("~/.conf").is_none());
    world.finish(&mut session).expect("finish");

    assert!(!world.manages("~/.conf"));
    assert!(
        world.stored.contains_key(&ContentHash::of(b"mine\n").bytes),
        "the bytes an interrupted release would be rolled back to are durable",
    );
}

#[test]
fn a_removal_takes_the_file_and_the_directories_bx_created() {
    let mut world = World::new();
    let dest = child(".config/deep/made.conf");
    world.plant(&dest, "bx wrote this\n", Mode::default_file());

    let mut session = world.open(SessionKind::Apply);
    let request = world.removal(".config/deep/made.conf", &[".config/deep", ".config"]);
    world.apply(&mut session, request).expect("apply");
    world.finish(&mut session).expect("finish");

    assert!(world.peek(&dest).is_none(), "removed, not truncated");
    assert!(!world.dirs.contains_key(&child(".config/deep")));
    assert!(!world.dirs.contains_key(&child(".config")));
    assert!(world.stored.contains_key(&ContentHash::of(b"bx wrote this\n").bytes));
}

#[test]
fn removing_a_destination_that_is_already_gone_is_not_an_error() {
    let mut world = World::new();
    let mut session = world.open(SessionKind::Apply);
    let request = world.removal(".never-there", &[]);
    world.apply(&mut session, request).expect("apply");
    drop(session);

    let loaded = world.loaded();
    let intents: Vec<&Intent> = loaded.intents();
    assert_eq!(intents[0].before, Prior::Absent);
    assert_eq!(intents[0].after, Written::Absent);
}

#[test]
fn a_directory_that_is_not_empty_stops_the_pruning() {
    let dirs = vec!["/a/b/c".to_owned(), "/a/b".to_owned(), "/a".to_owned()];
    assert_eq!(prune_dirs(&dirs, &vec![]), Ok(Some(0)));
    assert_eq!(prune_dirs(&dirs, &vec![Rmdir::Removed]), Ok(Some(1)));
    assert_eq!(prune_dirs(&dirs, &vec![Rmdir::Removed, Rmdir::NotEmpty]), Ok(None));
    assert_eq!(
        prune_dirs(&dirs, &vec![Rmdir::Removed, Rmdir::Gone, Rmdir::Removed]),
        Ok(None)
    );
    assert_eq!(remove_if_empty("/a", &Rmdir::NotDir), Ok(false));
}

#[test]
fn pruning_a_directory_that_is_already_gone_is_not_an_error() {
    let dirs = vec!["/tmp/never-existed".to_owned()];
    assert_eq!(prune_dirs(&dirs, &vec![Rmdir::Gone]), Ok(None));
    let absent = || Some(Came::NotFound("No such file or directory".to_owned()));
    assert_eq!(
        unlink("/tmp/never-there", Some(Came::Done), absent(), None),
        Ok(Durably::Done)
    );
    // Opening the directory first must not turn a missing one into an error.
    assert_eq!(unlink("/tmp/gone/never-there", absent(), None, None), Ok(Durably::Done));
}

#[test]
fn a_directory_that_cannot_be_removed_for_another_reason_is_an_error() {
    let dirs = vec!["/a".to_owned()];
    assert_eq!(
        prune_dirs(&dirs, &vec![Rmdir::Failed("Permission denied".to_owned())]),
        Err(Error::Io { path: "/a".to_owned(), source: "Permission denied".to_owned() }),
    );
}

#[test]
fn a_removal_opens_its_directory_before_the_unlink_and_syncs_it_after() {
    let dir = "/tmp/dir".to_owned();
    let file = "/tmp/dir/f";
    assert_eq!(unlink(file, None, None, None), Ok(Durably::Open(dir.clone())));
    assert_eq!(unlink(file, Some(Came::Done), None, None), Ok(Durably::Change));
    assert_eq!(
        unlink(file, Some(Came::Done), Some(Came::Done), None),
        Ok(Durably::Sync(dir))
    );
    assert_eq!(
        unlink(file, Some(Came::Done), Some(Came::Done), Some(Came::Done)),
        Ok(Durably::Done)
    );
}

#[test]
fn a_directory_that_cannot_be_opened_fails_a_removal_before_the_file_goes() {
    let denied = || Some(Came::Failed("Permission denied".to_owned()));
    let failed = Err(Error::Io {
        path: "/tmp/dir".to_owned(),
        source: "Permission denied".to_owned(),
    });
    assert_eq!(unlink("/tmp/dir/f", denied(), None, None), failed);
    assert_eq!(set_aside("/tmp/dir/f", denied(), None, None), failed);
    // A bare name is in the current directory.
    assert_eq!(unlink("f", None, None, None), Ok(Durably::Open(".".to_owned())));
}

#[test]
fn a_journal_is_set_aside_durably_or_not_at_all() {
    let dir = "/state".to_owned();
    let path = "/state/journal.mpk";
    let ok = || Some(Came::Done);
    assert_eq!(set_aside(path, None, None, None), Ok(Durably::Open(dir.clone())));
    assert_eq!(set_aside(path, ok(), None, None), Ok(Durably::Change));
    assert_eq!(set_aside(path, ok(), ok(), None), Ok(Durably::Sync(dir)));
    assert_eq!(set_aside(path, ok(), ok(), ok()), Ok(Durably::Done));
    let gone = Some(Came::NotFound("No such file".to_owned()));
    assert_eq!(
        set_aside(path, ok(), gone, None),
        Err(Error::Io { path: path.to_owned(), source: "No such file".to_owned() }),
    );
    let err = quarantine(path, Err("Permission denied".to_owned())).expect_err("it stays");
    assert_eq!(
        err.text(),
        "the write-ahead journal /state/journal.mpk cannot be read and could not be set aside \
         (Permission denied); it was left in place, and bx will not write until it can be moved",
    );
}

#[test]
fn the_intent_is_synced_before_the_destination_is_renamed_over() {
    let mut world = World::new();
    let dest = child(".conf");
    world.plant(&dest, "old\n", Mode::default_file());
    let mut session = world.open(SessionKind::Apply);
    let request = world.write_to(".conf", "new\n", Mode::default_file());
    world.apply(&mut session, request).expect("apply");
    let syncs = world.events.iter().filter(|event| event.starts_with("sync ")).count();
    assert_eq!(syncs, 2, "the Intent and the Done frames are each synced: {:?}", world.events);
    assert!(world.at("sync intent") < world.at(&format!("rename {dest}")));
    assert!(world.at(&format!("rename {dest}")) < world.at("sync done"));
}

#[test]
fn the_intent_is_synced_before_a_removal_unlinks_the_destination() {
    let mut world = World::new();
    let rel = ".config/made/x.conf";
    let dest = child(rel);
    let mut first = world.open(SessionKind::Apply);
    let request = world.write_to(rel, "x\n", Mode::default_file());
    world.apply(&mut first, request).expect("apply");
    world.finish(&mut first).expect("finish");

    let mut second = world.open(SessionKind::Restore);
    let request = world.removal(rel, &[".config/made", ".config"]);
    world.events.clear();
    world.apply(&mut second, request).expect("remove");
    let intent_sync = world.at("sync intent");
    let unlink = world.at(&format!("unlink {dest}"));
    let parent_sync = world.at(&format!("sync {}", child(".config/made")));
    world.finish(&mut second).expect("finish");

    assert!(intent_sync < unlink, "the Intent is durable before the unlink");
    assert!(unlink < parent_sync, "the directory is synced after the unlink");
    assert!(world.peek(&dest).is_none());
    assert!(!world.dirs.contains_key(&child(".config")));
}

#[test]
fn every_stored_path_in_a_journal_is_checked_against_its_home() {
    let begin = |home: &str, scope: Vec<Portable>| {
        Record::Begin(Begin { kind: SessionKind::Apply, home: home.to_owned(), scope })
    };
    let ours = target(".conf").0;
    let foreign = portable(&child(".conf"));

    for (why, records) in [
        ("a scope entry", vec![begin(HOME, vec![foreign.clone()])]),
        (
            "a Done target",
            vec![begin(HOME, Vec::new()), Record::Done(Done { target: foreign.clone() })],
        ),
        ("the header's own home", vec![begin("relative/home", vec![ours.clone()])]),
    ] {
        assert_eq!(
            read(&raw_journal(&records)).expect("load"),
            Loaded::Unreadable { moved_to: None },
            "{why}",
        );
    }

    // A path genuinely outside the home, and the ~/ spelling, still load.
    let outside = portable("/etc/bx-example.conf");
    let records = vec![
        begin(HOME, vec![ours.clone(), outside.clone()]),
        Record::Done(Done { target: outside }),
        Record::Done(Done { target: ours }),
    ];
    assert_eq!(
        read(&raw_journal(&records)).expect("load"),
        Loaded::Unterminated(records)
    );
}

#[test]
fn a_request_whose_destination_is_not_where_its_target_renders_is_refused() {
    let mut world = World::new();
    let mut request = world.write_to(".conf", "new\n", Mode::default_file());
    request.dest = child(".elsewhere");

    let mut session = world.open(SessionKind::Apply);
    let refused = world.apply(&mut session, request).expect_err("refused");
    assert!(matches!(refused, Error::Misplaced { .. }), "got {}", refused.text());
    assert!(world.peek(&child(".elsewhere")).is_none());
    assert!(world.peek(&child(".conf")).is_none());
    let again = world.write_to(".conf", "new\n", Mode::default_file());
    assert!(matches!(world.apply(&mut session, again), Err(Error::Poisoned { .. })));
    drop(session);
    assert_eq!(world.loaded().intents().len(), 0, "nothing was journalled");
}

fn removal_intent(target: &Portable, dest: &str) -> Intent {
    Intent {
        target: target.clone(),
        dest: dest.to_owned(),
        temp: None,
        before: Prior::Absent,
        after: Written::Absent,
        created_dirs: Vec::new(),
        mechanism: None,
        ledger_written: None,
    }
}

#[test]
fn a_journal_that_writes_one_target_twice_is_unreadable() {
    let (target, dest) = target(".conf");
    let intent = removal_intent(&target, &dest);
    let once = vec![
        Record::Begin(some_begin()),
        Record::Intent(intent.clone()),
        Record::Done(Done { target: target.clone() }),
    ];
    assert_eq!(
        read(&raw_journal(&once)).expect("load"),
        Loaded::Unterminated(once.clone())
    );

    let mut twice = once;
    twice.push(Record::Intent(intent));
    assert_eq!(
        read(&raw_journal(&twice)).expect("load"),
        Loaded::Unreadable { moved_to: None }
    );
}

#[test]
fn a_journal_with_a_second_session_header_is_unreadable() {
    let begin = Record::Begin(some_begin());
    assert_eq!(
        read(&raw_journal(&[begin.clone(), begin])).expect("load"),
        Loaded::Unreadable { moved_to: None }
    );
}

#[test]
fn a_crash_point_round_trips_through_its_spelling() {
    let phases = [
        Phase::BeforeStage,
        Phase::AfterStage,
        Phase::AfterFill,
        Phase::AfterIntent,
        Phase::AfterPublish,
        Phase::AfterDone,
    ];
    for (index, phase) in phases.iter().enumerate() {
        let spelled = Crash::name(*phase);
        assert_eq!(Crash::parse(&format!("{index}:{spelled}")), Some((index, *phase)));
    }
    for (index, phase) in [Phase::AfterEnd, Phase::AfterSave].iter().enumerate() {
        let spelled = Crash::name(*phase);
        assert_eq!(Crash::parse(&format!("{index}:{spelled}")), Some((index, *phase)));
    }
    assert_eq!(Crash::parse("not a crash point"), None);
    assert_eq!(Crash::parse("0:no-such-phase"), None);
    assert_eq!(Crash::parse("x:after-fill"), None);
    assert!(!Crash { at: None }.reached(0, Phase::BeforeStage));
    assert!(Crash { at: Some((2, Phase::AfterDone)) }.reached(2, Phase::AfterDone));
    assert!(!Crash { at: Some((2, Phase::AfterDone)) }.reached(1, Phase::AfterDone));
}

#[test]
fn a_session_keeps_one_set_of_the_directories_its_writes_created() {
    let mut world = World::new();
    let mut session = world.open(SessionKind::Apply);
    let request = world.write_to(".config/one/a.conf", "a\n", Mode::default_file());
    world.apply(&mut session, request).expect("the first write");
    let request = world.write_to(".config/two/b.conf", "b\n", Mode::default_file());
    world.apply(&mut session, request).expect("the second write");
    for dir in [".config", ".config/one", ".config/two"] {
        assert!(session.created().contains(&child(dir)), "{dir} is in the session's set");
    }
    world.finish(&mut session).expect("finish");
}

#[test]
fn a_target_spelled_absolutely_under_the_home_is_refused_before_anything_is_touched() {
    let mut world = World::new();
    let dest = child(".conf");
    world.plant(&dest, "old\n", Mode::default_file());

    let mut session = world.open(SessionKind::Apply);
    let mut request = world.write_to(".conf", "new\n", Mode::default_file());
    request.target = portable(&dest);
    let err = world.apply(&mut session, request).expect_err("the home check refuses it");
    assert!(matches!(err, Error::ForeignRecord { .. }), "got {}", err.text());
    let again = world.write_to(".conf", "again\n", Mode::default_file());
    let again = world.apply(&mut session, again).expect_err("the session is poisoned");
    assert!(matches!(again, Error::Poisoned { .. }), "got {}", again.text());
    let finished = world.finish(&mut session).expect_err("a poisoned session cannot finish");
    assert!(matches!(finished, Error::Poisoned { .. }), "got {}", finished.text());
    assert_eq!(world.peek(&dest).expect("untouched").0, b"old\n");
    assert!(world.temps.is_empty());

    // Nothing was announced, so what the session leaves is a journal bx believes.
    let loaded = world.loaded();
    assert!(!matches!(loaded, Loaded::Unreadable { .. }), "{loaded:?}");
    assert_eq!(loaded.intents().len(), 0);
}

#[test]
fn a_failed_removal_keeps_the_ledger_entry_and_poisons_the_session() {
    let mut world = World::new();
    let (portable, dest) = target("locked/made.conf");
    let mut first = world.open(SessionKind::Apply);
    let request = world.write_to("locked/made.conf", "made\n", Mode::default_file());
    world.apply(&mut first, request).expect("apply");
    world.finish(&mut first).expect("finish");

    world.failing = Some("unlink");
    let mut session = world.open(SessionKind::Restore);
    let request = world.removal("locked/made.conf", &["locked"]);
    let removed = world.apply(&mut session, request);
    let still_managed = session.ledger().find(&portable.text).is_some();
    let finished = world.finish(&mut session);

    let err = removed.expect_err("an unlink in a read-only directory fails");
    assert!(matches!(err, Error::Io { .. }), "got {}", err.text());
    assert!(still_managed, "a removal that did not happen does not drop the entry");
    assert!(matches!(finished, Err(Error::Poisoned { .. })), "got {finished:?}");
    assert!(world.peek(&dest).is_some());
    assert!(
        world.manages(&portable.text),
        "the saved ledger still owns the file that is still there",
    );
}

#[test]
fn a_failed_append_poisons_the_session() {
    let mut world = World::new();
    world.plant(&child(".conf"), "old\n", Mode::default_file());
    let mut session = world.open(SessionKind::Apply);
    world.failing = Some("intent");
    let request = world.write_to(".conf", "new\n", Mode::default_file());
    let err = world
        .apply(&mut session, request)
        .expect_err("a full disk fails the Intent append");
    assert_eq!(
        err,
        Error::Io { path: PATH.to_owned(), source: "intent failed".to_owned() }
    );
    assert_eq!(
        world.peek(&child(".conf")).expect("untouched").0,
        b"old\n",
        "nothing is published without its Intent",
    );

    // The disk has room again. A torn frame may now sit at the journal's tail,
    // so the session must append nothing more at all.
    world.failing = None;
    let journal = world.journal.clone();
    let request = world.write_to(".other", "x\n", Mode::default_file());
    let err = world
        .apply(&mut session, request)
        .expect_err("a poisoned session refuses another write");
    assert!(matches!(err, Error::Poisoned { .. }), "got {}", err.text());
    assert!(err.text().contains("roll back"), "{}", err.text());
    assert!(world.peek(&child(".other")).is_none());

    let err = world.finish(&mut session).expect_err("and refuses to finish");
    assert!(matches!(err, Error::Poisoned { .. }), "got {}", err.text());
    assert!(world.journal.is_some(), "the journal is left for recovery");
    assert_eq!(world.journal, journal, "and nothing was appended to it");
    assert!(world.saved.is_none(), "and the ledger was never saved");
    assert!(matches!(world.loaded(), Loaded::Unterminated(_)));
}

#[test]
fn a_failed_publish_poisons_the_session_and_records_nothing() {
    let mut world = World::new();
    world.failing = Some("publish");
    let mut session = world.open(SessionKind::Apply);
    let request = world.write_to(".conf", "new\n", Mode::default_file());
    let err = world.apply(&mut session, request).expect_err("the rename cannot land");
    assert_eq!(err, Error::Write { detail: "publish failed".to_owned() });
    assert!(
        session.ledger().find("~/.conf").is_none(),
        "a write that never landed is not recorded, not even in memory",
    );
    assert_eq!(session.written(), 0);

    let err = world.finish(&mut session).expect_err("a poisoned session cannot finish");
    assert!(matches!(err, Error::Poisoned { .. }), "got {}", err.text());
    assert!(world.saved.is_none(), "no ledger entry was saved");
    let loaded = world.loaded();
    assert!(matches!(loaded, Loaded::Unterminated(_)), "no End frame: {loaded:?}");
    assert_eq!(loaded.intents().len(), 1);
    assert!(!loaded.landed()[0].1, "its completion was never recorded");
}

#[test]
fn a_prior_conflict_poisons_the_session_before_anything_is_published() {
    let mut world = World::new();
    let (portable, dest) = target(".zshrc");
    let region = |body: &str| format!("user line\n# >>> bx >>>\n{body}\n# <<< bx <<<\n");
    let shared = |world: &World, body: &str| {
        let mut request = world.write_to(".zshrc", &region(body), Mode::default_file());
        request.ownership = Ownership::Owned(Mechanism::Region { comment: '#' });
        request
    };
    world.plant(&dest, "user line\n", Mode::default_file());
    let mut first = world.open(SessionKind::Apply);
    let request = shared(&world, "BX1");
    world.apply(&mut first, request).expect("apply");
    world.finish(&mut first).expect("finish");
    let saved = world.saved.clone().expect("the saved ledger");

    let edit = format!("{}more\n", region("BX1"));
    world.plant(&dest, &edit, Mode::default_file());

    let mut second = world.open(SessionKind::Apply);
    let request = shared(&world, "BX2");
    let err = world
        .apply(&mut second, request)
        .expect_err("a changed shared file is a conflict");
    assert!(matches!(err, Error::PriorConflict { .. }), "got {err:?}");
    assert_eq!(
        err.text(),
        "~/.zshrc was changed since bx last wrote its region; bx left it as it is",
    );
    assert_eq!(
        world.peek(&dest).expect("read").0,
        edit.as_bytes(),
        "the user's edit is untouched: nothing was published",
    );
    assert!(world.temps.is_empty());
    assert!(
        !world.stored.contains_key(&ContentHash::of(edit.as_bytes()).bytes),
        "the changed bytes were not stored as a prior",
    );
    let at = second.ledger().find(&portable.text).expect("the entry");
    assert_eq!(
        second.ledger().entries[at].written,
        ContentHash::of(region("BX1").as_bytes()),
    );

    let other = world.write_to(".other", "x\n", Mode::default_file());
    let again = world.apply(&mut second, other).expect_err("poisoned");
    assert!(matches!(again, Error::Poisoned { .. }), "got {again:?}");
    let finished = world.finish(&mut second).expect_err("a poisoned session cannot finish");
    assert!(matches!(finished, Error::Poisoned { .. }), "got {finished:?}");

    // The journal is kept, like any poisoned session's, and announces no write,
    // so recovery has nothing to roll back.
    let loaded = world.loaded();
    assert!(matches!(loaded, Loaded::Unterminated(_)), "{loaded:?}");
    assert!(
        !loaded.records().iter().any(|record| matches!(record, Record::Intent(_))),
        "nothing was announced",
    );
    assert_eq!(world.saved, Some(saved));
}

#[test]
fn a_shared_file_as_bx_left_it_or_gone_is_written_again() {
    let mut world = World::new();
    let dest = child(".zshrc");
    let shared = |world: &World, bytes: &str| {
        let mut request = world.write_to(".zshrc", bytes, Mode::default_file());
        request.ownership = Ownership::Owned(Mechanism::Region { comment: '#' });
        request
    };
    for bytes in ["one\n", "two\n"] {
        let mut session = world.open(SessionKind::Apply);
        let request = shared(&world, bytes);
        world.apply(&mut session, request).expect("apply");
        world.finish(&mut session).expect("finish");
        assert_eq!(world.peek(&dest).expect("written").0, bytes.as_bytes());
    }
    world.files.remove(&dest);
    let mut session = world.open(SessionKind::Apply);
    let request = shared(&world, "three\n");
    world.apply(&mut session, request).expect("a file that is gone is no conflict");
    world.finish(&mut session).expect("finish");
    let saved = world.saved.as_ref().expect("saved");
    let at = saved.find("~/.zshrc").expect("managed");
    assert_eq!(saved.entries[at].prior, Prior::Absent, "the first prior is kept");
}

#[test]
fn a_session_will_not_write_through_a_symlink_the_user_made() {
    let mut world = World::new();
    world.plant(&child("real"), "real\n", Mode::default_file());
    world.links.insert(child(".conf"));

    let mut session = world.open(SessionKind::Apply);
    let request = world.write_to(".conf", "new\n", Mode::default_file());
    let err = world.apply(&mut session, request).expect_err("a symlink must be refused");
    assert!(matches!(err, Error::Symlink { .. }), "got {err:?}");
    assert!(world.temps.is_empty(), "nothing was staged");

    // A refused write poisons its session, so the removal is refused in a
    // session of its own.
    world.journal = None;
    let mut session = world.open(SessionKind::Apply);
    let request = world.removal(".conf", &[]);
    let err = world.apply(&mut session, request).expect_err("and so must a removal of one");
    assert!(matches!(err, Error::NotAFile { .. }), "got {err:?}");
    assert_eq!(world.peek(&child("real")).expect("kept").0, b"real\n");
}

#[test]
fn a_directory_where_a_file_is_to_be_written_is_refused() {
    let mut world = World::new();
    world.dirs.insert(child(".conf"), Mode::default_dir());
    let mut session = world.open(SessionKind::Apply);
    let request = world.write_to(".conf", "new\n", Mode::default_file());
    assert_eq!(
        world.apply(&mut session, request),
        Err(Error::NotAFile { path: child(".conf"), kind: Kind::Dir }),
    );
    assert!(world.temps.is_empty());
}

#[test]
fn a_removal_names_how_its_destination_moved_since_plan() {
    let mut world = World::new();
    let dest = child(".conf");
    world.plant(&dest, "bx's\n", Mode::default_file());
    let planned = world.removal(".conf", &[]);
    world.plant(&dest, "edited\n", Mode::default_file());
    let mut session = world.open(SessionKind::Restore);
    assert_eq!(
        world.apply(&mut session, planned),
        Err(Error::Changed {
            path: dest.clone(),
            detail: "it has been modified or replaced".to_owned(),
        }),
    );
    assert_eq!(world.peek(&dest).expect("kept").0, b"edited\n");

    let there = world.observe(&dest);
    let nothing = world.observe(&child(".nothing"));
    let gone = Observed { path: dest.clone(), ..nothing.clone() };
    let detail = |planned: &Observed, now: &Observed| match refuse_moved(planned, now) {
        Err(Error::Changed { detail, .. }) => detail,
        other => panic!("got {other:?}"),
    };
    assert_eq!(detail(&there, &gone), "it has been removed");
    assert_eq!(detail(&gone, &there), "nothing was there, and something is now");
    assert_eq!(
        detail(&nothing, &there),
        "plan observed /home/someone/.nothing, not this path",
    );
    assert_eq!(refuse_moved(&there, &there), Ok(()));
}

#[test]
fn a_removal_naming_a_directory_that_is_not_its_parent_is_refused_before_anything_is_touched() {
    for case in [
        "an unrelated directory",
        "the home",
        "the destination itself",
        "a directory above the home",
    ] {
        let mut world = World::new();
        let (portable, dest) = target(".conf");
        let mut first = world.open(SessionKind::Apply);
        let request = world.write_to(".conf", "bx created\n", Mode::default_file());
        world.apply(&mut first, request).expect("apply");
        world.finish(&mut first).expect("finish");
        let users = child("projects/empty");
        world.make_dirs(&[child("projects"), users.clone()]);
        let stray = match case {
            "an unrelated directory" => users.clone(),
            "the home" => HOME.to_owned(),
            "the destination itself" => dest.clone(),
            _ => parent(HOME).to_owned(),
        };

        let mut session = world.open(SessionKind::Restore);
        let request = Request {
            content: Content::Absent {
                created_dirs: vec![stray.clone()],
                planned: world.observe(&dest),
            },
            ..world.removal(".conf", &[])
        };
        let err = world.apply(&mut session, request).expect_err(case);
        assert_eq!(
            err,
            Error::StrayCreatedDir { target: portable.clone(), dir: stray },
            "{case}"
        );
        assert!(world.dirs.contains_key(&users), "{case}: the user's directory stays");
        assert_eq!(world.peek(&dest).expect("untouched").0, b"bx created\n", "{case}");
        let request = world.write_to(".other", "x\n", Mode::default_file());
        let again = world
            .apply(&mut session, request)
            .expect_err("the session is poisoned");
        assert!(matches!(again, Error::Poisoned { .. }), "{case}: got {}", again.text());

        let loaded = world.loaded();
        assert!(!matches!(loaded, Loaded::Unreadable { .. }), "{case}: {loaded:?}");
        assert_eq!(loaded.intents().len(), 0, "{case}: nothing was announced");
        assert!(world.manages(&portable.text), "{case}: bx still manages the file");
    }
}

#[test]
fn a_target_is_written_once_in_a_session() {
    let mut world = World::new();
    let mut session = world.open(SessionKind::Apply);
    let request = world.write_to(".conf", "one\n", Mode::default_file());
    world.apply(&mut session, request).expect("apply");
    let again = world.write_to(".conf", "two\n", Mode::default_file());
    assert_eq!(
        world.apply(&mut session, again),
        Err(Error::Repeated { target: portable("~/.conf") })
    );
    assert_eq!(world.peek(&child(".conf")).expect("kept").0, b"one\n");
}

#[test]
fn a_report_of_something_that_was_not_asked_poisons_the_session() {
    let mut world = World::new();
    let mut session = world.open(SessionKind::Apply);
    let request = world.write_to(".conf", "one\n", Mode::default_file());
    assert_eq!(session.apply(request), Ok(Ask::Look));
    assert_eq!(session.report(Did::Published), Err(Error::OutOfStep));
    assert!(matches!(session.finish(), Err(Error::Poisoned { .. })));
}

#[test]
fn a_removal_of_something_that_is_no_file_is_refused() {
    let mut world = World::new();
    let mut session = world.open(SessionKind::Restore);
    let request = world.removal(".conf", &[]);
    assert_eq!(session.apply(request), Ok(Ask::Look));
    let mut found = world.observe(&child(".conf"));
    found.kind = Kind::Dir;
    let err = session.report(Did::Looked(found)).expect_err("a directory is not removed");
    assert!(matches!(err, Error::Changed { .. } | Error::NotAFile { .. }), "{}", err.text());
}

#[test]
fn a_forgotten_targets_directories_are_handed_to_what_is_still_there() {
    let mut world = World::new();
    let mut first = world.open(SessionKind::Apply);
    for rel in [".config/a.conf", ".config/b.conf"] {
        let request = world.write_to(rel, "x\n", Mode::default_file());
        world.apply(&mut first, request).expect("apply");
    }
    world.finish(&mut first).expect("finish");
    let claims = |world: &World, target: &str| -> Vec<String> {
        let ledger = world.saved.as_ref().expect("saved");
        let entry = &ledger.entries[ledger.find(target).expect("managed")];
        entry.created_dirs.iter().map(|dir| dir.text.clone()).collect()
    };
    assert_eq!(claims(&world, "~/.config/a.conf"), ["~/.config"]);
    assert!(claims(&world, "~/.config/b.conf").is_empty());

    world.files.remove(&child(".config/a.conf"));
    let mut second = world.open(SessionKind::Restore);
    second.forget("~/.config/a.conf");
    world.finish(&mut second).expect("finish");
    assert!(!world.manages("~/.config/a.conf"));
    assert_eq!(claims(&world, "~/.config/b.conf"), ["~/.config"]);
    assert!(world.dirs.contains_key(&child(".config")), "and never removed");
}

#[test]
fn a_whole_record_after_the_end_of_a_session_is_unreadable_and_nothing_rolls_back() {
    let created = |rel: &str, bytes: &[u8]| {
        let (target, dest) = target(rel);
        let mut intent = removal_intent(&target, &dest);
        intent.after = Written::Present {
            digest: ContentHash::of(bytes),
            mode: Mode::default_file(),
        };
        intent.mechanism = Some(Mechanism::Own);
        Record::Intent(intent)
    };
    let bytes = raw_journal(&[
        Record::Begin(some_begin()),
        created(".first", b"first\n"),
        done("~/.first"),
        Record::End(End { written: 1 }),
        created(".second", b"second\n"),
    ]);
    let loaded = read(&bytes).expect("load");
    assert_eq!(loaded, Loaded::Unreadable { moved_to: None });
    assert!(!loaded.is_interrupted());
    assert!(loaded.intents().is_empty(), "there is nothing to roll back");
}

#[test]
fn bytes_after_the_end_of_a_session_are_unreadable_not_terminated() {
    let (journal, mut bytes) = create("journal.mpk", &some_begin());
    append(&journal, &mut bytes, &Record::End(End { written: 0 }));
    assert_eq!(
        read(&bytes).expect("load"),
        Loaded::Terminated(vec![
            Record::Begin(some_begin()),
            Record::End(End { written: 0 })
        ]),
    );
    bytes.extend_from_slice(&[0xab; 32]);
    assert_eq!(read(&bytes).expect("load"), Loaded::Unreadable { moved_to: None });
}

#[test]
fn a_journal_path_that_cannot_be_looked_at_is_an_error_not_an_absent_journal() {
    let path = "/state-is-a-file/journal.mpk";
    let err = load(path, Look::Failed("Not a directory".to_owned()), Vec::new())
        .expect_err("a path that cannot be looked at is not absent");
    assert!(
        matches!(&err, Error::Io { path: at, .. } if at == path),
        "got {}",
        err.text()
    );
}

#[test]
fn a_journal_that_is_not_a_regular_file_is_refused_without_being_read() {
    let fifo = Kind::Other("a named pipe".to_owned());
    let err = load(PATH, Look::NotAFile(fifo), Vec::new()).expect_err("refused");
    assert_eq!(
        err.text(),
        "the write-ahead journal /home/someone/.local/state/bx/journal.mpk is a named pipe; bx \
         reads a journal only from a regular file, so it did not open it, and will not write until \
         it is moved",
    );
    for kind in ["a named pipe", "a symlink"] {
        let look = || Look::NotAFile(Kind::Other(kind.to_owned()));
        let refused = Error::NotAJournal {
            path: PATH.to_owned(),
            kind: Kind::Other(kind.to_owned()),
        };
        assert_eq!(load(PATH, look(), Vec::new()), Err(refused), "{kind}");
        // Never set aside, and never replaced.
        assert!(
            matches!(
                load_exclusive(PATH, look(), Vec::new()),
                Err(Error::NotAJournal { .. })
            ),
            "{kind}"
        );
    }
}

#[test]
fn the_search_for_a_whole_frame_after_damage_starts_past_the_damaged_frame() {
    let bytes = raw_journal(&[Record::Begin(some_begin()), done("~/.a")]);
    let decoded = table(&bytes);
    assert_eq!(decoded.len(), 2);
    assert!(whole_frame_after(&bytes, HEADER, nonce_of(&bytes), &decoded));
    assert!(!whole_frame_after(&bytes, decoded[1].0, nonce_of(&bytes), &decoded));
}

#[test]
fn a_prior_already_in_the_restore_store_is_not_written_again() {
    let mut world = World::new();
    world.plant(&child(".conf"), "old\n", Mode::private_file());
    let observed = world.observe(&child(".conf"));
    let reference = Prior::Existed(RestoreRef {
        digest: ContentHash::of(b"old\n"),
        mode: Mode::private_file(),
        len: 4,
    });
    assert_eq!(store_prior(&observed, None), (reference.clone(), true));
    assert_eq!(store_prior(&observed, Some(4)), (reference.clone(), false));
    assert_eq!(store_prior(&observed, Some(3)), (reference, true));
    assert_eq!(
        store_prior(&world.observe(&child(".none")), None),
        (Prior::Absent, false)
    );
}

#[test]
fn a_session_counts_every_write_it_published() {
    let mut world = World::new();
    let mut session = world.open(SessionKind::Apply);
    for rel in [".one", ".two", ".three"] {
        let request = world.write_to(rel, "x\n", Mode::default_file());
        world.apply(&mut session, request).expect("apply");
    }
    assert_eq!(session.written(), 3);
    assert_eq!(world.finish(&mut session).expect("finish"), 3);
}

#[test]
fn a_journal_is_set_aside_under_the_number_after_the_highest_present() {
    let named = |names: &[&str]| {
        let present = names.iter().map(|name| (*name).to_owned()).collect();
        next_aside("/s/journal.mpk", &present)
    };
    let some = |name: &str| Some(name.to_owned());
    assert_eq!(named(&[]), some("/s/journal.mpk.corrupt"));
    assert_eq!(named(&["/s/journal.mpk.corrupt"]), some("/s/journal.mpk.corrupt.1"));
    assert_eq!(
        named(&["/s/journal.mpk.corrupt.9", "/s/journal.mpk.corrupt.2", "/s/lock"]),
        some("/s/journal.mpk.corrupt.10")
    );
    // A name that only looks like one is none.
    assert_eq!(
        named(&["/s/journal.mpk.corrupt.07", "/s/journal.mpk.corrupt.+3"]),
        some("/s/journal.mpk.corrupt")
    );
    // Once the top number is present, the lowest free one.
    let top = "/s/journal.mpk.corrupt.18446744073709551615";
    assert_eq!(named(&[top]), some("/s/journal.mpk.corrupt"));
    assert_eq!(
        named(&["/s/journal.mpk.corrupt", top, "/s/journal.mpk.corrupt.1"]),
        some("/s/journal.mpk.corrupt.2")
    );
}

#[test]
fn a_journal_naming_an_absolute_path_under_its_home_never_drives_a_rollback() {
    let bytes = raw_journal(&[
        Record::Begin(some_begin()),
        Record::Intent(Intent {
            target: portable(&child(".gitconfig")),
            dest: child(".gitconfig"),
            temp: None,
            before: Prior::Absent,
            after: Written::Present {
                digest: ContentHash::of(b"[user]\n"),
                mode: Mode::default_file(),
            },
            created_dirs: Vec::new(),
            mechanism: Some(Mechanism::Own),
            ledger_written: None,
        }),
    ]);
    let loaded = read(&bytes).expect("load");
    assert_eq!(loaded, Loaded::Unreadable { moved_to: None });
    assert!(loaded.intents().is_empty(), "nothing in it can be rolled back");
    let table = table(&bytes);
    assert!(matches!(
        load_exclusive(PATH, Look::Bytes(bytes), table).expect("load"),
        Exclusive::SetAside(_)
    ));
}

#[test]
fn an_unreadable_journal_is_never_set_aside_over_an_earlier_one() {
    let mut world = World::new();
    let earlier = format!("{PATH}.corrupt");
    world.journal = Some(b"GARBAGE!".to_vec());
    assert!(matches!(
        load_exclusive(PATH, Look::Bytes(b"GARBAGE!".to_vec()), Vec::new()),
        Ok(Exclusive::SetAside(_))
    ));
    let aside = next_aside(PATH, &vec![earlier]).expect("a name is free");
    assert_eq!(aside, format!("{PATH}.corrupt.1"));
    let standing = quarantine(PATH, Ok(aside.clone())).expect("it is set aside");
    assert_eq!(standing, Loaded::Unreadable { moved_to: Some(aside) });
    let opened = Session::open_locked(
        PATH.to_owned(),
        SessionKind::Apply,
        HOME.to_owned(),
        Vec::new(),
        &standing,
        Ledger::new(),
    );
    assert!(opened.is_ok(), "the unreadable journal is set aside and the session opens");
}

#[test]
fn a_journal_that_ends_with_an_end_record_is_terminated() {
    let (journal, mut bytes) = create("journal.mpk", &some_begin());
    assert!(matches!(read(&bytes).expect("load"), Loaded::Unterminated(_)));

    append(&journal, &mut bytes, &Record::End(End { written: 0 }));
    assert_eq!(
        read(&bytes).expect("load"),
        Loaded::Terminated(vec![Record::Begin(some_begin()), Record::End(End { written: 0 })]),
    );
}

#[test]
fn a_zero_byte_journal_is_an_empty_interrupted_session_and_stays_in_place() {
    assert_eq!(
        load_exclusive(PATH, Look::Bytes(Vec::new()), Vec::new()).expect("load"),
        Exclusive::Loaded(Loaded::Unterminated(Vec::new())),
    );
}

#[test]
fn a_torn_header_is_an_empty_session_and_a_torn_first_frame_is_set_aside() {
    let (_, bytes) = create("journal.mpk", &some_begin());
    // Every cut short of the first whole frame. Inside the header it is a
    // session that wrote nothing. Past the header it is damage.
    for cut in 0..bytes.len() {
        let some = bytes[..cut].to_vec();
        let table = if cut > HEADER { table(&some) } else { Vec::new() };
        let loaded = load_exclusive(PATH, Look::Bytes(some), table).expect("load");
        if cut <= HEADER {
            assert_eq!(
                loaded,
                Exclusive::Loaded(Loaded::Unterminated(Vec::new())),
                "a cut at {cut}"
            );
        } else {
            assert_eq!(
                loaded,
                Exclusive::SetAside("its first frame is not a whole record"),
                "a cut at {cut}"
            );
        }
    }
}

#[test]
fn a_frame_appended_after_a_torn_one_is_hidden_from_recovery() {
    let (journal, mut whole) = create("journal.mpk", &some_begin());
    let after_begin = whole.len();
    append(&journal, &mut whole, &done("~/.torn"));
    let after_torn = whole.len();
    append(&journal, &mut whole, &done("~/.hidden"));

    let mut torn = whole[..after_begin + (after_torn - after_begin) / 2].to_vec();
    torn.extend_from_slice(&whole[after_torn..]);
    assert_eq!(read(&torn).expect("load"), Loaded::Unreadable { moved_to: None });
}

#[test]
fn a_failed_removal_intent_append_poisons_the_session_and_unlinks_nothing() {
    let mut world = World::new();
    let (portable, dest) = target(".conf");
    let mut first = world.open(SessionKind::Apply);
    let request = world.write_to(".conf", "bx created\n", Mode::default_file());
    world.apply(&mut first, request).expect("apply");
    world.finish(&mut first).expect("finish");

    let mut session = world.open(SessionKind::Restore);
    world.failing = Some("intent");
    let request = world.removal(".conf", &[]);
    let err = world
        .apply(&mut session, request)
        .expect_err("a full disk fails the removal's Intent append");
    assert_eq!(
        err,
        Error::Io { path: PATH.to_owned(), source: "intent failed".to_owned() }
    );
    assert_eq!(world.peek(&dest).expect("not unlinked").0, b"bx created\n");
    assert!(
        session.ledger().find(&portable.text).is_some(),
        "nothing was removed, so nothing is forgotten"
    );
    let finished = world.finish(&mut session).expect_err("a poisoned session cannot finish");
    assert!(matches!(finished, Error::Poisoned { .. }), "got {finished:?}");
}

#[test]
fn an_edit_between_fill_and_publish_is_kept_and_recovery_rolls_nothing_back_over_it() {
    let mut world = World::new();
    let (portable, dest) = target(".conf");
    world.plant(&dest, "old\n", Mode::default_file());

    let mut session = world.open(SessionKind::Apply);
    world.meddling = Some("the user's edit\n");
    let request = world.write_to(".conf", "new\n", Mode::default_file());
    let err = world.apply(&mut session, request).expect_err("the destination changed");
    assert!(matches!(err, Error::Changed { .. }), "got {err:?}");
    assert!(session.ledger().find(&portable.text).is_none());
    let finished = world.finish(&mut session).expect_err("a poisoned session cannot finish");
    assert!(matches!(finished, Error::Poisoned { .. }), "got {finished:?}");
    assert_eq!(world.peek(&dest).expect("kept").0, b"the user's edit\n");
    assert!(world.temps.is_empty());

    // The Intent was durable before the publish was refused, so recovery finds
    // a destination holding neither recorded state.
    let loaded = world.loaded();
    let intents = loaded.intents();
    assert_eq!(intents.len(), 1);
    assert_eq!(standing_of(intents[0], &world.observe(&dest)), Standing::Diverged);
}

#[test]
fn an_edit_between_plan_and_the_sessions_stage_is_kept_poisons_and_recovery_touches_nothing() {
    let mut world = World::new();
    let (portable, dest) = target(".conf");
    world.plant(&dest, "old\n", Mode::default_file());
    let (_, other) = target(".other");
    world.plant(&other, "other before\n", Mode::default_file());

    // Plan observes both destinations, and one of them is saved over.
    let first = world.write_to(".other", "other after\n", Mode::default_file());
    let second = world.write_to(".conf", "new\n", Mode::default_file());
    world.plant(&dest, "the user's edit after plan\n", Mode::default_file());

    let mut session = world.open(SessionKind::Apply);
    world.apply(&mut session, first).expect("the other destination is what plan saw");
    let err = world
        .apply(&mut session, second)
        .expect_err("the destination changed since plan");
    assert!(matches!(err, Error::Changed { .. }), "got {err:?}");
    assert!(session.ledger().find(&portable.text).is_none());
    let third = world.write_to(".third", "x\n", Mode::default_file());
    let again = world.apply(&mut session, third).expect_err("the session is poisoned");
    assert!(matches!(again, Error::Poisoned { .. }), "got {again:?}");
    let finished = world.finish(&mut session).expect_err("a poisoned session cannot finish");
    assert!(matches!(finished, Error::Poisoned { .. }), "got {finished:?}");
    assert_eq!(world.peek(&dest).expect("kept").0, b"the user's edit after plan\n");
    assert!(world.temps.is_empty());
    assert_eq!(world.peek(&child(".third")), None);

    // Refused before its Intent frame: the journal names only the earlier write.
    let loaded = world.loaded();
    let named: Vec<&Portable> = loaded.intents().iter().map(|intent| &intent.target).collect();
    assert_eq!(named.len(), 1, "{named:?}");
    assert_ne!(named[0], &portable);
}

#[test]
fn a_journal_that_cannot_be_moved_aside_is_an_error_and_stays_in_place() {
    assert!(matches!(
        load_exclusive(PATH, Look::Bytes(b"GARBAGE!".to_vec()), Vec::new()),
        Ok(Exclusive::SetAside(_))
    ));
    let err = quarantine(PATH, Err("Permission denied".to_owned()))
        .expect_err("a journal that cannot be moved aside is refused");
    assert_eq!(
        err,
        Error::CannotSetAside {
            path: PATH.to_owned(),
            source: "Permission denied".to_owned()
        }
    );
}

#[test]
fn an_edit_between_a_removals_intent_and_its_unlink_is_kept_and_recovery_touches_nothing() {
    let mut world = World::new();
    let (portable, dest) = target(".conf");
    let mut first = world.open(SessionKind::Apply);
    let request = world.write_to(".conf", "bx created\n", Mode::default_file());
    world.apply(&mut first, request).expect("apply");
    world.finish(&mut first).expect("finish");

    let mut session = world.open(SessionKind::Restore);
    let request = world.removal(".conf", &[]);
    world.meddling = Some("the user's edit\n");
    let err = world
        .apply(&mut session, request)
        .expect_err("the destination changed after the Intent");
    assert!(matches!(err, Error::Changed { .. }), "got {err:?}");
    assert!(
        session.ledger().find(&portable.text).is_some(),
        "nothing was removed, so nothing is forgotten",
    );
    let finished = world.finish(&mut session).expect_err("a poisoned session cannot finish");
    assert!(matches!(finished, Error::Poisoned { .. }), "got {finished:?}");
    assert_eq!(world.peek(&dest).expect("kept").0, b"the user's edit\n");

    let loaded = world.loaded();
    let intents = loaded.intents();
    assert_eq!(intents.len(), 1);
    assert_eq!(standing_of(intents[0], &world.observe(&dest)), Standing::Diverged);
}

#[test]
fn a_claimed_directory_that_is_no_longer_a_directory_is_left_and_the_walk_goes_on() {
    let claims = vec![child("a/b"), child("a")];
    // Left, and nothing after it is tried.
    assert_eq!(prune_dirs(&claims, &vec![Rmdir::NotDir]), Ok(None));
    // As a claim it is left too, and the rest are tried.
    assert_eq!(
        prune_claims(&Ledger::new(), HOME, &claims),
        vec![child("a/b"), child("a")]
    );
    assert_eq!(remove_if_empty(&claims[0], &Rmdir::NotDir), Ok(false));
    assert_eq!(remove_if_empty(&claims[1], &Rmdir::NotEmpty), Ok(false));
}

#[test]
fn a_claim_the_heir_holds_is_not_recorded_again() {
    let (heir, _) = target(".config/app/a.toml");
    let claim = portable("~/.config/app");
    for holds in [true, false] {
        let mut ledger = Ledger::new();
        ledger.record(LedgerEntry {
            path: heir.clone(),
            written: ContentHash::of(b"x\n"),
            mode: Mode::default_file(),
            mechanism: Mechanism::Own,
            prior: Prior::Absent,
            created_dirs: if holds { vec![claim.clone()] } else { Vec::new() },
        });
        hand_off_claims(&mut ledger, HOME, &vec![child(".config/app")]);
        assert_eq!(ledger.entries.len(), 1);
        assert_eq!(ledger.entries[0].created_dirs, vec![claim.clone()], "held: {holds}");
        assert_eq!(ledger.entries[0].written, ContentHash::of(b"x\n"));
    }
}

#[test]
fn a_released_write_hands_on_the_directories_its_entry_claimed() {
    let mut world = World::new();
    let claims = vec![portable("~/.config/app"), portable("~/.config")];

    // bx makes both directories for a.conf, which claims them.
    for (rel, bytes) in
        [(".config/app/a.conf", "bx a\n"), (".config/app/heir.conf", "bx heir\n")]
    {
        let mut session = world.open(SessionKind::Apply);
        let request = world.write_to(rel, bytes, Mode::default_file());
        world.apply(&mut session, request).expect("apply");
        world.finish(&mut session).expect("finish");
    }
    let (a, a_dest) = target(".config/app/a.conf");
    let (heir, _) = target(".config/app/heir.conf");
    let claimed = |world: &World, target: &Portable| {
        let ledger = world.saved.as_ref().expect("saved");
        ledger.find(&target.text).map(|at| ledger.entries[at].created_dirs.clone())
    };
    assert_eq!(
        claimed(&world, &a).as_ref(),
        Some(&claims),
        "a.conf claims both directories bx made"
    );
    assert_eq!(claimed(&world, &heir), Some(Vec::new()));

    // `rm` hands a.conf back: the entry goes, the file stays as the user's.
    // Both claims must reach the surviving entry beneath them.
    let mut session =
        world.try_open(SessionKind::Restore, vec![a.clone()]).expect("open");
    let planned = world.observe(&a_dest);
    let request = Request {
        target: a.clone(),
        dest: a_dest.clone(),
        content: Content::Bytes { bytes: b"theirs\n".to_vec(), planned },
        mode: Mode::default_file(),
        ownership: Ownership::Released,
    };
    world.apply(&mut session, request).expect("hand it back");
    world.finish(&mut session).expect("finish");

    assert_eq!(claimed(&world, &a), None, "the entry was handed back");
    assert_eq!(
        claimed(&world, &heir),
        Some(claims),
        "and its claims reached the entry still beneath them"
    );
    assert_eq!(world.peek(&a_dest).expect("handed back").0, b"theirs\n");
    assert!(
        world.dirs.contains_key(&child(".config/app")),
        "nothing was pruned: no removal was announced"
    );
}

#[test]
fn a_ledger_that_refuses_after_a_publish_poisons_the_session_and_is_rolled_back() {
    let mut world = World::new();
    let (portable, dest) = target(".conf");
    world.plant(&dest, "theirs\n", Mode::default_file());

    let mut session = world.open(SessionKind::Apply);
    world.failing = Some("record");
    let request = world.write_to(".conf", "bx\n", Mode::default_file());
    let err = world
        .apply(&mut session, request)
        .expect_err("the ledger refuses after the publish");
    assert_eq!(err, Error::State { detail: "record failed".to_owned() });
    assert_eq!(
        world.peek(&dest).expect("published").0,
        b"bx\n",
        "the write landed before the ledger refused",
    );
    let finished = world.finish(&mut session).expect_err("a poisoned session cannot finish");
    assert!(matches!(finished, Error::Poisoned { .. }), "got {finished:?}");
    assert!(session.ledger().find(&portable.text).is_none());

    let loaded = world.loaded();
    let intents = loaded.intents();
    assert_eq!(intents.len(), 1, "the Intent is durable");
    assert!(!matches!(loaded, Loaded::Terminated(_)), "and no End followed it");
    assert_eq!(loaded.landed(), vec![(intents[0], false)]);
    assert_eq!(
        standing_of(intents[0], &world.observe(&dest)),
        Standing::Written,
        "the landed write is recovery's to undo",
    );
    let Prior::Existed(reference) = &intents[0].before else { panic!("it displaced bytes") };
    assert_eq!(
        world.stored.get(&reference.digest.bytes).map(Vec::as_slice),
        Some(&b"theirs\n"[..]),
        "and what it is undone with is stored",
    );
}

#[test]
fn a_directory_is_announced_before_it_is_made_and_recorded_with_what_it_claims() {
    let mut world = World::new();
    let mut session = world.open(SessionKind::Apply);
    let request = world.dir_to("a/b/c", Mode::from_bits(0o750));
    world.apply(&mut session, request).expect("apply");
    assert!(world.at("sync intent") < world.at(&format!("mkdir {}", child("a/b/c"))));
    assert_eq!(world.dirs.get(&child("a/b/c")), Some(&Mode::from_bits(0o750)));
    assert_eq!(world.dirs.get(&child("a/b")), Some(&Mode::default_dir()));
    assert_eq!(*session.created(), vec![child("a/b"), child("a")]);

    let loaded = world.loaded();
    let intents = loaded.intents();
    assert_eq!(intents[0].before, Prior::Absent);
    assert_eq!(intents[0].temp, None);
    assert_eq!(intents[0].mechanism, Some(Mechanism::Dir));
    assert_eq!(
        standing_of(intents[0], &world.observe(&child("a/b/c"))),
        Standing::Written
    );
    world.finish(&mut session).expect("finish");
    let ledger = world.saved.as_ref().expect("saved");
    let entry = &ledger.entries[ledger.find("~/a/b/c").expect("recorded")];
    assert_eq!(entry.created_dirs, vec![portable("~/a/b"), portable("~/a")]);
    assert_eq!(entry.written, dir_digest());
}

#[test]
fn a_directory_that_is_there_is_set_and_the_mode_it_had_is_announced() {
    let mut world = World::new();
    world.dirs.insert(child(".d"), Mode::default_dir());
    let mut session = world.open(SessionKind::Apply);
    let request = world.dir_to(".d", Mode::private_dir());
    world.failing = Some("mkdir");
    world.apply(&mut session, request).expect_err("the mode cannot be set");
    let loaded = world.loaded();
    let intents = loaded.intents();
    assert_eq!(
        intents[0].before,
        Prior::Existed(RestoreRef {
            digest: dir_digest(),
            mode: Mode::default_dir(),
            len: 0
        })
    );
    assert_eq!(
        standing_of(intents[0], &world.observe(&child(".d"))),
        Standing::Before,
        "it is still as it was",
    );
    assert!(world.stored.is_empty(), "a directory has no bytes to keep");
    assert!(session.ledger().entries.is_empty());
}

#[test]
fn a_directory_that_moved_after_it_was_announced_is_left() {
    let mut world = World::new();
    let dest = child(".d");
    let mut session = world.open(SessionKind::Apply);
    world.meddling = Some("the user's file\n");
    let request = world.dir_to(".d", Mode::private_dir());
    assert_eq!(
        world.apply(&mut session, request),
        Err(Error::Changed {
            path: dest.clone(),
            detail: "nothing was there, and something is now".to_owned(),
        }),
    );
    assert_eq!(world.peek(&dest).expect("kept").0, b"the user's file\n");
    assert_eq!(world.loaded().intents().len(), 1, "it was announced");
    assert!(session.ledger().find("~/.d").is_none());
}

#[test]
fn the_ledger_keeps_the_mode_a_directory_had_before_bx() {
    let mut world = World::new();
    world.dirs.insert(child(".d"), Mode::default_dir());
    for mode in [0o700, 0o750] {
        let mut session = world.open(SessionKind::Apply);
        let request = world.dir_to(".d", Mode::from_bits(mode));
        world.apply(&mut session, request).expect("apply");
        world.finish(&mut session).expect("finish");
    }
    let saved = world.saved.as_ref().expect("saved");
    let entry = &saved.entries[saved.find("~/.d").expect("recorded")];
    let Prior::Existed(prior) = &entry.prior else { panic!("it was there") };
    assert_eq!(prior.mode, Mode::default_dir());
    assert_eq!(entry.mode, Mode::from_bits(0o750));
}

#[test]
fn a_directory_is_not_made_over_a_file_or_over_what_moved() {
    let mut world = World::new();
    let (_, dest) = target(".d");
    let early = world.dir_to(".d", Mode::private_dir());
    world.plant(&dest, "the user's\n", Mode::default_file());
    let mut session = world.open(SessionKind::Apply);
    let late = world.dir_to(".d", Mode::private_dir());
    let err = world.apply(&mut session, late).expect_err("a file is there");
    assert_eq!(err, Error::NotADir { path: dest.clone(), kind: Kind::File });
    assert_eq!(
        err.text(),
        format!("{dest} is a file, not a directory bx may make or set")
    );

    let mut world = World::new();
    world.plant(&dest, "the user's\n", Mode::default_file());
    let mut session = world.open(SessionKind::Apply);
    let err = world.apply(&mut session, early).expect_err("something is there now");
    assert!(matches!(err, Error::Changed { .. }), "got {err:?}");
    assert!(world.loaded().intents().is_empty(), "nothing was announced");
}
