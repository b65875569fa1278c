//! Reading a journal, and telling what a crash can leave from damage.
//!
//! A torn *tail* (bytes after the last whole frame, with no whole frame after
//! them) is discarded and reported as [`Loaded::Torn`]. That covers bytes that
//! stop short of a frame, which is what a process killed mid-append leaves, and
//! a frame that is all there but fails its checksum or its decoding, which is
//! what a power loss that zero-fills an unsynced tail leaves.
//!
//! Everything else that is not whole frames is refused: a wrong magic or an
//! older format; a first frame that is torn or damaged, which no crash leaves,
//! because the header and the first frame are renamed into place together; a
//! frame whose checksum or decoding fails **with a whole frame after it**, which
//! no crash leaves either, because only the last frame can be unsynced; and
//! bytes after an end.
//!
//! The records themselves are decoded by the program. It asks for the offsets
//! of the frames whose checksums hold, decodes their bodies, and hands in what
//! decoded.

use crate::digest::{byte_range, from_le, le, lemma_le_len, lemma_le_round_trip};
use crate::fs::Kind;
use crate::journal::believe::{
    a_shorter_journal_is_believed, first_fault, foreign, misplacement, portable_against, reason,
    record_fault, refusal, refused, written_before,
};
use crate::journal::error::Error;
use crate::journal::frame::{
    framed, header, journal_bytes, lemma_cut_frame_is_torn, lemma_frame_is_whole, magic,
    magic_bytes, seal, seal_at, Seal, CHECK, FORMAT, HEADER, MAGIC_LEN, MAX_FRAME, NONCE, PREFIX,
};
use crate::journal::record::{Begin, Intent, Record};
use crate::paths::absolute;
use crate::text::{opt_text, same_bytes, same_text};
use vstd::prelude::*;
use vstd::slice::slice_subrange;

verus! {

/// What was found at a journal's path.
#[derive(Debug, PartialEq, Eq)]
pub enum Loaded {
    /// There is no journal: no session is in flight.
    Absent,
    /// The journal ends with an end, so every write in it was published and
    /// only the ledger may be behind.
    Terminated(Vec<Record>),
    /// The journal has no end: the session was interrupted.
    Unterminated(Vec<Record>),
    /// The journal has no end, and ends in bytes that are not a whole frame,
    /// with no whole frame after them: the session was interrupted while it
    /// appended one.
    ///
    /// The whole frames before them are what [`Loaded::Unterminated`] would
    /// hold, and recovery rolls them back the same way. But bytes that stop
    /// short are also what a damaged length looks like, so the file is set
    /// aside rather than unlinked.
    Torn {
        /// The whole frames, in the order they were written.
        records: Vec<Record>,
        /// How many bytes after them were not a whole frame.
        discarded: usize,
    },
    /// The bytes are not a journal a bx session could have written.
    Unreadable {
        /// Where the bytes were kept, or `None` if they were not moved because
        /// the read held no lock.
        moved_to: Option<String>,
    },
}

impl Loaded {
    /// The frames, which is nothing at all for the two empty outcomes.
    pub open spec fn frames(self) -> Seq<Record> {
        match self {
            Loaded::Terminated(records) => records@,
            Loaded::Unterminated(records) => records@,
            Loaded::Torn { records, .. } => records@,
            _ => Seq::empty(),
        }
    }

    /// The frames, which is nothing at all for the two empty outcomes.
    pub fn records(&self) -> (r: &[Record])
        ensures
            r@ == self.frames(),
    {
        match self {
            Loaded::Terminated(records) => records.as_slice(),
            Loaded::Unterminated(records) => records.as_slice(),
            Loaded::Torn { records, .. } => records.as_slice(),
            _ => {
                let none: &[Record] = &[];
                assert(none@ =~= Seq::<Record>::empty());
                none
            },
        }
    }

    /// Whether a session is unresolved: recorded, and not known to be cleared.
    pub fn is_interrupted(&self) -> (r: bool)
        ensures
            r == (self is Terminated || self is Unterminated || self is Torn),
    {
        match self {
            Loaded::Terminated(_) | Loaded::Unterminated(_) | Loaded::Torn { .. } => true,
            _ => false,
        }
    }

    /// The session header, if the journal has one: its first.
    pub fn begin(&self) -> (r: Option<&Begin>)
        ensures
            match r {
                Some(begin) => exists|i: int|
                    0 <= i < self.frames().len() && (#[trigger] self.frames()[i])
                        == Record::Begin(*begin) && forall|j: int|
                        0 <= j < i ==> (#[trigger] self.frames()[j]) !is Begin,
                None => forall|j: int|
                    0 <= j < self.frames().len() ==> (#[trigger] self.frames()[j]) !is Begin,
            },
    {
        let records = self.records();
        let mut i: usize = 0;
        while i < records.len()
            invariant
                i <= records.len(),
                records@ == self.frames(),
                forall|j: int| 0 <= j < i ==> (#[trigger] records@[j]) !is Begin,
            decreases records.len() - i,
        {
            if let Record::Begin(begin) = &records[i] {
                assert(self.frames()[i as int] == Record::Begin(*begin));
                return Some(begin);
            }
            i = i + 1;
        }
        None
    }

    /// Every [`Intent`], in the order it was written.
    pub fn intents(&self) -> (r: Vec<&Intent>)
        ensures
            referred(r@) == intents_of(self.frames()),
    {
        let records = self.records();
        let mut out: Vec<&Intent> = Vec::new();
        let mut i: usize = 0;
        while i < records.len()
            invariant
                i <= records.len(),
                referred(out@) == intents_of(records@.subrange(0, i as int)),
            decreases records.len() - i,
        {
            let ghost so_far = records@.subrange(0, i as int);
            let ghost more = records@.subrange(0, i + 1);
            assert(more.drop_last() =~= so_far);
            let ghost before = out@;
            if let Record::Intent(intent) = &records[i] {
                out.push(intent);
                assert(referred(out@) =~= referred(before).push(*intent));
            }
            i = i + 1;
        }
        assert(records@.subrange(0, records@.len() as int) =~= records@);
        out
    }

    /// Every [`Intent`], in the order it was written, with whether it was
    /// published.
    ///
    /// A session appends an intent's completion as the very next frame, and a
    /// session whose write fails appends nothing more at all, so "the next
    /// frame is its completion" is exactly "it landed".
    pub fn landed(&self) -> (r: Vec<(&Intent, bool)>)
        ensures
            judged(r@) == landed_from(self.frames(), 0),
    {
        let records = self.records();
        let mut out: Vec<(&Intent, bool)> = Vec::new();
        let mut i: usize = 0;
        while i < records.len()
            invariant
                i <= records.len(),
                judged(out@) + landed_from(records@, i as int) == landed_from(records@, 0),
            decreases records.len() - i,
        {
            let ghost before = out@;
            if let Record::Intent(intent) = &records[i] {
                let landed = if i + 1 < records.len() {
                    match &records[i + 1] {
                        Record::Done(done) => same_text(
                            done.target.text.as_str(),
                            intent.target.text.as_str(),
                        ),
                        _ => false,
                    }
                } else {
                    false
                };
                out.push((intent, landed));
                assert(landed == lands(records@, i as int));
            }
            assert(judged(out@) + landed_from(records@, i + 1) =~= judged(before) + landed_from(
                records@,
                i as int,
            ));
            i = i + 1;
        }
        assert(judged(out@) =~= landed_from(records@, 0));
        out
    }
}

/// The intents some references stand for.
pub open spec fn referred(intents: Seq<&Intent>) -> Seq<Intent> {
    Seq::new(intents.len(), |i: int| *intents[i])
}

/// The intents some references stand for, each with its judgement.
pub open spec fn judged(intents: Seq<(&Intent, bool)>) -> Seq<(Intent, bool)> {
    Seq::new(intents.len(), |i: int| (*intents[i].0, intents[i].1))
}

/// The intents of some records, in order.
pub open spec fn intents_of(records: Seq<Record>) -> Seq<Intent>
    decreases records.len(),
{
    if records.len() == 0 {
        Seq::empty()
    } else {
        let before = intents_of(records.drop_last());
        match records.last() {
            Record::Intent(intent) => before.push(intent),
            _ => before,
        }
    }
}

/// Whether the record after an intent at `i` is its completion.
pub open spec fn lands(records: Seq<Record>, i: int) -> bool {
    i + 1 < records.len() && records[i + 1] is Done && records[i + 1]->Done_0.target@
        == records[i]->Intent_0.target@
}

/// The intents of the records from `i` on, each with whether it landed.
pub open spec fn landed_from(records: Seq<Record>, i: int) -> Seq<(Intent, bool)>
    decreases records.len() - i,
{
    if i >= records.len() {
        Seq::empty()
    } else {
        let rest = landed_from(records, i + 1);
        match records[i] {
            Record::Intent(intent) => seq![(intent, lands(records, i))] + rest,
            _ => rest,
        }
    }
}

/// What the program decoded: offsets of frames, each with its record. A frame
/// whose offset is missing did not decode.
pub type Decoded = Vec<(usize, Record)>;

/// The record that decoded at an offset, if one did.
pub open spec fn decoded(table: Seq<(usize, Record)>, at: int) -> Option<Record>
    decreases table.len(),
{
    if table.len() == 0 {
        None
    } else if table[0].0 == at {
        Some(table[0].1)
    } else {
        decoded(table.drop_first(), at)
    }
}

/// Just past the frame at `at`, by its own length.
pub open spec fn frame_end(bytes: Seq<u8>, at: int) -> int {
    at + PREFIX + CHECK + from_le(bytes.subrange(at, at + PREFIX))
}

/// Whether a whole frame of this session, checksum and decoding both good,
/// starts at `at`.
pub open spec fn whole(
    bytes: Seq<u8>,
    nonce: Seq<u8>,
    table: Seq<(usize, Record)>,
    at: int,
) -> bool {
    seal(bytes, at, nonce) is Whole && decoded(table, at) is Some
}

/// The records of the whole frames that follow one another from `at` on.
pub open spec fn run(
    bytes: Seq<u8>,
    nonce: Seq<u8>,
    table: Seq<(usize, Record)>,
    at: int,
) -> Seq<Record>
    decreases bytes.len() - at,
{
    if at >= bytes.len() || !whole(bytes, nonce, table, at) {
        Seq::empty()
    } else {
        seq![decoded(table, at)->0] + run(bytes, nonce, table, frame_end(bytes, at))
    }
}

/// Where the whole frames that follow one another from `at` on stop.
pub open spec fn run_end(
    bytes: Seq<u8>,
    nonce: Seq<u8>,
    table: Seq<(usize, Record)>,
    at: int,
) -> int
    decreases bytes.len() - at,
{
    if at >= bytes.len() || !whole(bytes, nonce, table, at) {
        at
    } else {
        run_end(bytes, nonce, table, frame_end(bytes, at))
    }
}

/// Whether a whole frame of this session starts anywhere after `at`.
pub open spec fn whole_after(
    bytes: Seq<u8>,
    nonce: Seq<u8>,
    table: Seq<(usize, Record)>,
    at: int,
) -> bool {
    exists|s: int| at < s < bytes.len() && #[trigger] whole(bytes, nonce, table, s)
}

/// What the bytes of a journal say.
pub ghost enum Verdict {
    /// A newer bx wrote it.
    Future { found: u8 },
    /// No session, and no crash of one, left it.
    Refused { why: Seq<char> },
    /// A session that ended.
    Terminated { records: Seq<Record> },
    /// A session that did not.
    Unterminated { records: Seq<Record> },
    /// A session that did not, and this many bytes of a frame it was appending.
    Torn { records: Seq<Record>, discarded: int },
    /// Nothing stands there, which no bytes say.
    Absent,
    /// What stands there cannot be believed and is, or is not, moved aside, which
    /// no bytes say.
    Unreadable { moved_to: Option<Seq<char>> },
}

/// The session's nonce, where the header is whole.
pub open spec fn nonce_of(bytes: Seq<u8>) -> Seq<u8> {
    bytes.subrange(MAGIC_LEN + 1, HEADER as int)
}

/// What the frames after a whole header say.
pub open spec fn verdict_of_frames(bytes: Seq<u8>, table: Seq<(usize, Record)>) -> Verdict {
    let nonce = nonce_of(bytes);
    let records = run(bytes, nonce, table, HEADER as int);
    let stop = run_end(bytes, nonce, table, HEADER as int);
    if stop < bytes.len() && records.len() == 0 {
        Verdict::Refused { why: "its first frame is not a whole record"@ }
    } else if stop < bytes.len() && records.last() is End {
        Verdict::Refused { why: "bytes follow the end of its session"@ }
    } else if stop < bytes.len() && seal(bytes, stop, nonce) !is Torn && whole_after(
        bytes,
        nonce,
        table,
        stop,
    ) {
        Verdict::Refused {
            why: "a frame after its first is damaged, and a whole frame follows it"@,
        }
    } else if refused(records) is Some {
        Verdict::Refused { why: refused(records)->0 }
    } else if records.len() > 0 && records.last() is End {
        Verdict::Terminated { records }
    } else if stop < bytes.len() {
        Verdict::Torn { records, discarded: bytes.len() - stop }
    } else {
        Verdict::Unterminated { records }
    }
}

/// What a session, or a crash of one, left in these bytes, or why it is
/// neither.
pub open spec fn verdict(bytes: Seq<u8>, table: Seq<(usize, Record)>) -> Verdict {
    if bytes.len() <= MAGIC_LEN {
        if bytes.is_prefix_of(magic()) {
            Verdict::Unterminated { records: Seq::empty() }
        } else {
            Verdict::Refused { why: "it does not start with a bx journal header"@ }
        }
    } else if bytes.subrange(0, MAGIC_LEN as int) != magic() {
        Verdict::Refused { why: "it does not start with a bx journal header"@ }
    } else if bytes[MAGIC_LEN as int] > FORMAT {
        Verdict::Future { found: bytes[MAGIC_LEN as int] }
    } else if bytes[MAGIC_LEN as int] != FORMAT {
        Verdict::Refused { why: "it is a journal format this bx cannot read"@ }
    } else if bytes.len() < HEADER {
        Verdict::Unterminated { records: Seq::empty() }
    } else {
        verdict_of_frames(bytes, table)
    }
}

/// What the bytes of a journal say.
#[derive(Debug, PartialEq, Eq)]
pub enum Inspected {
    /// A newer bx wrote it, in this format.
    Future(u8),
    /// Why no session, and no crash of one, left it.
    Refused(&'static str),
    /// What a session, or a crash of one, left.
    Believed(Loaded),
}

impl View for Inspected {
    type V = Verdict;

    open spec fn view(&self) -> Verdict {
        match *self {
            Inspected::Future(found) => Verdict::Future { found },
            Inspected::Refused(why) => Verdict::Refused { why: why@ },
            Inspected::Believed(Loaded::Terminated(records)) => Verdict::Terminated {
                records: records@,
            },
            Inspected::Believed(Loaded::Unterminated(records)) => Verdict::Unterminated {
                records: records@,
            },
            Inspected::Believed(Loaded::Torn { records, discarded }) => Verdict::Torn {
                records: records@,
                discarded: discarded as int,
            },
            Inspected::Believed(Loaded::Absent) => Verdict::Absent,
            Inspected::Believed(Loaded::Unreadable { moved_to }) => Verdict::Unreadable {
                moved_to: opt_text(moved_to),
            },
        }
    }
}

/// Every offset of a journal at which a frame's checksum holds: what the
/// program decodes before [`inspect`] is asked.
pub fn sealed_frames(bytes: &[u8]) -> (r: Vec<usize>)
    ensures
        forall|i: int|
            #![trigger r@[i]]
            0 <= i < r@.len() ==> HEADER <= r@[i] < bytes@.len() && seal(
                bytes@,
                r@[i] as int,
                nonce_of(bytes@),
            ) is Whole,
        forall|i: int, j: int| 0 <= i < j < r@.len() ==> (#[trigger] r@[i]) < (#[trigger] r@[j]),
        forall|at: int|
            HEADER <= at < bytes@.len() && (#[trigger] seal(bytes@, at, nonce_of(bytes@))) is Whole
                ==> r@.contains(at as usize),
{
    let mut out: Vec<usize> = Vec::new();
    if bytes.len() < HEADER {
        return out;
    }
    let nonce = slice_subrange(bytes, MAGIC_LEN + 1, HEADER);
    let mut at: usize = HEADER;
    while at < bytes.len()
        invariant
            HEADER <= at <= bytes.len(),
            nonce@ == nonce_of(bytes@),
            forall|i: int|
                #![trigger out@[i]]
                0 <= i < out@.len() ==> HEADER <= out@[i] < at && seal(
                    bytes@,
                    out@[i] as int,
                    nonce@,
                ) is Whole,
            forall|i: int, j: int|
                0 <= i < j < out@.len() ==> (#[trigger] out@[i]) < (#[trigger] out@[j]),
            forall|a: int|
                HEADER <= a < at && (#[trigger] seal(bytes@, a, nonce@)) is Whole
                    ==> out@.contains(a as usize),
        decreases bytes.len() - at,
    {
        let ghost before = out@;
        if let Seal::Whole(_) = seal_at(bytes, at, nonce) {
            out.push(at);
            assert(out@[out@.len() - 1] == at);
        }
        assert forall|a: int|
            HEADER <= a < at + 1 && (#[trigger] seal(bytes@, a, nonce@)) is Whole implies out@.contains(
        a as usize) by {
            if a < at {
                let k = before.index_of(a as usize);
                assert(before.contains(a as usize));
                assert(out@[k] == a as usize);
            }
        }
        at = at + 1;
    }
    out
}

/// The place in the table of the record that decoded at an offset.
fn lookup(table: &Vec<(usize, Record)>, at: usize) -> (r: Option<usize>)
    ensures
        match r {
            Some(i) => i < table@.len() && table@[i as int].0 == at && decoded(
                table@,
                at as int,
            ) == Some(table@[i as int].1),
            None => decoded(table@, at as int) is None,
        },
{
    let mut i: usize = 0;
    assert(table@.subrange(0, table@.len() as int) =~= table@);
    while i < table.len()
        invariant
            i <= table.len(),
            decoded(table@, at as int) == decoded(
                table@.subrange(i as int, table@.len() as int),
                at as int,
            ),
        decreases table.len() - i,
    {
        let ghost here = table@.subrange(i as int, table@.len() as int);
        assert(here[0] == table@[i as int]);
        if table[i].0 == at {
            return Some(i);
        }
        assert(here.drop_first() =~= table@.subrange(i + 1, table@.len() as int));
        i = i + 1;
    }
    None
}

/// Taking one entry out of the table changes nothing at the other offsets.
proof fn lemma_decoded_remove(table: Seq<(usize, Record)>, i: int, at: int)
    requires
        0 <= i < table.len(),
        table[i].0 != at,
    ensures
        decoded(table.remove(i), at) == decoded(table, at),
    decreases table.len(),
{
    let less = table.remove(i);
    if i == 0 {
        assert(less =~= table.drop_first());
    } else {
        assert(less[0] == table[0]);
        if table[0].0 != at {
            lemma_decoded_remove(table.drop_first(), i - 1, at);
            assert(less.drop_first() =~= table.drop_first().remove(i - 1));
        }
    }
}

/// Whether a whole frame of this session starts anywhere after `at`.
///
/// Every offset is tried, because the damaged frame's own length cannot be
/// trusted to say where the next one starts. A whole frame an earlier journal
/// left in reused blocks fails here, because its checksum was taken under that
/// journal's nonce.
pub fn whole_frame_after(
    bytes: &[u8],
    at: usize,
    nonce: &[u8],
    table: &Vec<(usize, Record)>,
) -> (r: bool)
    requires
        at < bytes.len(),
    ensures
        r == whole_after(bytes@, nonce@, table@, at as int),
{
    let mut s: usize = at + 1;
    while s < bytes.len()
        invariant
            at < s <= bytes.len(),
            forall|k: int| at < k < s ==> !#[trigger] whole(bytes@, nonce@, table@, k),
        decreases bytes.len() - s,
    {
        if let Seal::Whole(_) = seal_at(bytes, s, nonce) {
            if lookup(table, s).is_some() {
                assert(whole(bytes@, nonce@, table@, s as int));
                return true;
            }
        }
        s = s + 1;
    }
    false
}

/// Classify the bytes of a journal: what a session, or a crash of one, left
/// there, or why it is neither.
#[verifier::loop_isolation(false)]
pub fn inspect(bytes: &[u8], table: Decoded) -> (r: Inspected)
    ensures
        r@ == verdict(bytes@, table@),
        r matches Inspected::Believed(loaded) ==> loaded !is Absent && loaded !is Unreadable,
{
    let magic = magic_bytes();
    if bytes.len() <= MAGIC_LEN {
        if same_bytes(bytes, slice_subrange(magic.as_slice(), 0, bytes.len())) {
            return Inspected::Believed(Loaded::Unterminated(Vec::new()));
        }
        return Inspected::Refused("it does not start with a bx journal header");
    }
    if !same_bytes(slice_subrange(bytes, 0, MAGIC_LEN), magic.as_slice()) {
        return Inspected::Refused("it does not start with a bx journal header");
    }
    let found = bytes[MAGIC_LEN];
    if found > FORMAT {
        return Inspected::Future(found);
    }
    if found != FORMAT {
        return Inspected::Refused("it is a journal format this bx cannot read");
    }
    if bytes.len() < HEADER {
        return Inspected::Believed(Loaded::Unterminated(Vec::new()));
    }
    let nonce = slice_subrange(bytes, MAGIC_LEN + 1, HEADER);
    let ghost all = table@;
    let mut table = table;
    let mut records: Vec<Record> = Vec::new();
    let mut at: usize = HEADER;
    let mut discarded: usize = 0;
    assert(records@ + run(bytes@, nonce@, all, at as int) =~= run(bytes@, nonce@, all, at as int));
    while at < bytes.len()
        invariant
            discarded == 0,
            HEADER <= at <= bytes.len(),
            forall|a: int| at <= a ==> #[trigger] decoded(table@, a) == decoded(all, a),
            records@ + run(bytes@, nonce@, all, at as int) == run(
                bytes@,
                nonce@,
                all,
                HEADER as int,
            ),
            run_end(bytes@, nonce@, all, at as int) == run_end(bytes@, nonce@, all, HEADER as int),
        decreases bytes.len() - at,
    {
        let seal = seal_at(bytes, at, nonce);
        let place = match seal {
            Seal::Whole(_) => lookup(&table, at),
            _ => None,
        };
        match (seal, place) {
            (Seal::Whole(next), Some(i)) => {
                let ghost before = table@;
                let ghost so_far = records@;
                let (_, record) = table.remove(i);
                records.push(record);
                proof {
                    assert forall|a: int| next <= a implies #[trigger] decoded(table@, a)
                        == decoded(all, a) by {
                        lemma_decoded_remove(before, i as int, a);
                        assert(decoded(before, a) == decoded(all, a));
                    }
                    assert(next == frame_end(bytes@, at as int));
                    assert(records@ + run(bytes@, nonce@, all, next as int) =~= so_far + run(
                        bytes@,
                        nonce@,
                        all,
                        at as int,
                    ));
                }
                at = next;
            },
            _ => {
                assert(!whole(bytes@, nonce@, all, at as int)) by {
                    assert(decoded(table@, at as int) == decoded(all, at as int));
                }
                assert(records@ =~= run(bytes@, nonce@, all, HEADER as int));
                if records.len() == 0 {
                    return Inspected::Refused("its first frame is not a whole record");
                }
                if let Record::End(_) = &records[records.len() - 1] {
                    return Inspected::Refused("bytes follow the end of its session");
                }
                let torn = match seal {
                    Seal::Torn => true,
                    _ => false,
                };
                if !torn {
                    let after = whole_frame_after(bytes, at, nonce, &table);
                    assert(after == whole_after(bytes@, nonce@, all, at as int)) by {
                        assert forall|s: int| at < s implies #[trigger] whole(
                            bytes@,
                            nonce@,
                            table@,
                            s,
                        ) == whole(bytes@, nonce@, all, s) by {
                            assert(decoded(table@, s) == decoded(all, s));
                        }
                        if whole_after(bytes@, nonce@, all, at as int) {
                            let s = choose|s: int|
                                at < s < bytes@.len() && #[trigger] whole(bytes@, nonce@, all, s);
                            assert(whole(bytes@, nonce@, table@, s));
                        }
                        if whole_after(bytes@, nonce@, table@, at as int) {
                            let s = choose|s: int|
                                at < s < bytes@.len() && #[trigger] whole(
                                    bytes@,
                                    nonce@,
                                    table@,
                                    s,
                                );
                            assert(whole(bytes@, nonce@, all, s));
                        }
                    }
                    if after {
                        return Inspected::Refused(
                            "a frame after its first is damaged, and a whole frame follows it",
                        );
                    }
                }
                discarded = bytes.len() - at;
                break;
            },
        }
    }
    assert(records@ =~= run(bytes@, nonce@, all, HEADER as int));
    if let Some(why) = refusal(records.as_slice()) {
        return Inspected::Refused(why);
    }
    let ended = if records.len() > 0 {
        match &records[records.len() - 1] {
            Record::End(_) => true,
            _ => false,
        }
    } else {
        false
    };
    Inspected::Believed(
        if ended {
            Loaded::Terminated(records)
        } else if discarded > 0 {
            Loaded::Torn { records, discarded }
        } else {
            Loaded::Unterminated(records)
        },
    )
}

/// What the program found at a journal's path, following no link.
#[derive(Debug, PartialEq, Eq)]
pub enum Look {
    /// Nothing.
    Nothing,
    /// Something that is not a regular file. It was not opened.
    NotAFile(Kind),
    /// Something that could not be looked at or read, and why.
    Failed(String),
    /// A file, and its bytes.
    Bytes(Vec<u8>),
}

/// What a journal that cannot be read at all is reported as.
pub open spec fn unread(path: Seq<char>, look: Look, error: Error) -> bool {
    match look {
        Look::NotAFile(kind) => error matches Error::NotAJournal { path: at, kind: found } && at@
            == path && found == kind,
        Look::Failed(why) => error matches Error::Io { path: at, source } && at@ == path && source
            == why,
        _ => false,
    }
}

/// Read a journal, classifying anything a crash can leave behind, and move
/// nothing.
///
/// This is the read that is made without the state lock, so it never moves what
/// it found: the journal may belong to a session running right now. Setting an
/// unreadable journal aside is [`load_exclusive`]'s.
///
/// # Errors
///
/// [`Error::Io`] when the file exists and cannot be read at all. Damage is a
/// value, not an error; only a failure to look is. [`Error::FutureVersion`] for
/// a journal a newer bx wrote, which is not damage and is never set aside.
/// [`Error::NotAJournal`] for a path that is not a regular file.
pub fn load(path: &str, look: Look, table: Decoded) -> (r: Result<Loaded, Error>)
    ensures
        match look {
            Look::Nothing => r is Ok && r->Ok_0 is Absent,
            Look::Bytes(bytes) => match verdict(bytes@, table@) {
                Verdict::Future { found } => r matches Err(
                    Error::FutureVersion { path: at, found: format, supported },
                ) && at@ == path@ && format == found && supported == FORMAT,
                Verdict::Refused { .. } => r matches Ok(Loaded::Unreadable { moved_to })
                    && moved_to is None,
                _ => r is Ok && r->Ok_0 !is Absent && r->Ok_0 !is Unreadable
                    && Inspected::Believed(r->Ok_0)@ == verdict(bytes@, table@),
            },
            _ => r is Err && unread(path@, look, r->Err_0),
        },
{
    match load_exclusive(path, look, table) {
        Ok(Exclusive::Loaded(loaded)) => Ok(loaded),
        Ok(Exclusive::SetAside(_)) => Ok(Loaded::Unreadable { moved_to: None }),
        Err(error) => Err(error),
    }
}

/// What the holder of the state lock does next with a journal.
#[derive(Debug, PartialEq, Eq)]
pub enum Exclusive {
    /// Nothing: this is what stands there.
    Loaded(Loaded),
    /// Move it aside, and ask [`quarantine`]. The reason it is not believed.
    SetAside(&'static str),
}

/// [`load`], and where the journal is not believed, say so: it is to be moved
/// aside.
///
/// # Errors
///
/// As [`load`].
pub fn load_exclusive(path: &str, look: Look, table: Decoded) -> (r: Result<Exclusive, Error>)
    ensures
        match look {
            Look::Nothing => r matches Ok(Exclusive::Loaded(loaded)) && loaded is Absent,
            Look::Bytes(bytes) => match verdict(bytes@, table@) {
                Verdict::Future { found } => r matches Err(
                    Error::FutureVersion { path: at, found: format, supported },
                ) && at@ == path@ && format == found && supported == FORMAT,
                Verdict::Refused { why } => r matches Ok(Exclusive::SetAside(said)) && said@ == why,
                _ => r matches Ok(Exclusive::Loaded(loaded)) && loaded !is Absent
                    && loaded !is Unreadable && Inspected::Believed(loaded)@ == verdict(
                    bytes@,
                    table@,
                ),
            },
            _ => r is Err && unread(path@, look, r->Err_0),
        },
{
    match look {
        Look::Nothing => Ok(Exclusive::Loaded(Loaded::Absent)),
        Look::NotAFile(kind) => Err(Error::NotAJournal { path: path.to_owned(), kind }),
        Look::Failed(source) => Err(Error::Io { path: path.to_owned(), source }),
        Look::Bytes(bytes) => match inspect(bytes.as_slice(), table) {
            Inspected::Future(found) => Err(
                Error::FutureVersion { path: path.to_owned(), found, supported: FORMAT },
            ),
            Inspected::Refused(why) => Ok(Exclusive::SetAside(why)),
            Inspected::Believed(loaded) => Ok(Exclusive::Loaded(loaded)),
        },
    }
}

/// What a journal that was to be moved aside is: unreadable, and where its
/// bytes were kept.
///
/// # Errors
///
/// [`Error::CannotSetAside`] when the move failed. It is an error rather than a
/// value its caller could read as "nothing stands": a session would then create
/// its own journal over the bytes.
pub fn quarantine(path: &str, moved: Result<String, String>) -> (r: Result<Loaded, Error>)
    ensures
        match moved {
            Ok(aside) => r matches Ok(Loaded::Unreadable { moved_to }) && moved_to == Some(aside),
            Err(why) => r matches Err(Error::CannotSetAside { path: at, source }) && at@ == path@
                && source == why,
        },
{
    match moved {
        Ok(aside) => Ok(Loaded::Unreadable { moved_to: Some(aside) }),
        Err(source) => Err(Error::CannotSetAside { path: path.to_owned(), source }),
    }
}

/// Whether these are a session's encoded records: none empty, none wider than a
/// frame may be.
pub open spec fn encodings(payloads: Seq<Seq<u8>>) -> bool {
    forall|k: int| 0 <= k < payloads.len() ==> 0 < (#[trigger] payloads[k]).len() <= MAX_FRAME
}

/// Where the frame of the `k`th record starts.
pub open spec fn frame_start(nonce: Seq<u8>, payloads: Seq<Seq<u8>>, k: int) -> int {
    journal_bytes(nonce, payloads.take(k)).len() as int
}

/// Whether the program decodes each encoded record to its record.
pub open spec fn decodes(
    table: Seq<(usize, Record)>,
    nonce: Seq<u8>,
    payloads: Seq<Seq<u8>>,
    records: Seq<Record>,
) -> bool {
    &&& records.len() == payloads.len()
    &&& forall|k: int|
        0 <= k < payloads.len() ==> decoded(table, #[trigger] frame_start(nonce, payloads, k))
            == Some(records[k])
}

/// The first `k` frames, the next one, and the rest.
proof fn lemma_journal_split(nonce: Seq<u8>, payloads: Seq<Seq<u8>>, k: int) -> (rest: Seq<u8>)
    requires
        0 <= k < payloads.len(),
    ensures
        journal_bytes(nonce, payloads) == journal_bytes(nonce, payloads.take(k)) + framed(
            payloads[k],
            nonce,
        ) + rest,
        k + 1 < payloads.len() ==> journal_bytes(nonce, payloads.take(k + 1)) == journal_bytes(
            nonce,
            payloads.take(k),
        ) + framed(payloads[k], nonce),
        k + 1 == payloads.len() ==> rest.len() == 0,
    decreases payloads.len(),
{
    let less = payloads.drop_last();
    if k + 1 == payloads.len() {
        assert(less =~= payloads.take(k));
        assert(journal_bytes(nonce, payloads) =~= journal_bytes(nonce, payloads.take(k)) + framed(
            payloads[k],
            nonce,
        ) + Seq::<u8>::empty());
        Seq::empty()
    } else {
        let inner = lemma_journal_split(nonce, less, k);
        assert(less.take(k) =~= payloads.take(k));
        let rest = inner + framed(payloads.last(), nonce);
        assert(journal_bytes(nonce, payloads) =~= journal_bytes(nonce, payloads.take(k)) + framed(
            payloads[k],
            nonce,
        ) + rest);
        assert(payloads.take(k + 1).drop_last() =~= payloads.take(k));
        assert(payloads.take(k + 1).last() == payloads[k]);
        rest
    }
}

proof fn lemma_journal_len(nonce: Seq<u8>, payloads: Seq<Seq<u8>>)
    requires
        nonce.len() == NONCE,
    ensures
        journal_bytes(nonce, payloads).len() >= HEADER,
        journal_bytes(nonce, payloads).subrange(0, HEADER as int) == header(nonce),
    decreases payloads.len(),
{
    if payloads.len() > 0 {
        lemma_journal_len(nonce, payloads.drop_last());
        let before = journal_bytes(nonce, payloads.drop_last());
        assert(journal_bytes(nonce, payloads).subrange(0, HEADER as int) =~= before.subrange(
            0,
            HEADER as int,
        ));
    } else {
        assert(journal_bytes(nonce, payloads).subrange(0, HEADER as int) =~= header(nonce));
    }
}

/// The frames of a journal are found one after another, up to what follows the
/// last of them.
proof fn lemma_run(
    nonce: Seq<u8>,
    payloads: Seq<Seq<u8>>,
    records: Seq<Record>,
    table: Seq<(usize, Record)>,
    tail: Seq<u8>,
    k: int,
)
    requires
        0 <= k <= payloads.len(),
        nonce.len() == NONCE,
        encodings(payloads),
        decodes(table, nonce, payloads, records),
        (journal_bytes(nonce, payloads) + tail).len() <= usize::MAX,
        tail.len() > 0 ==> !whole(
            journal_bytes(nonce, payloads) + tail,
            nonce,
            table,
            journal_bytes(nonce, payloads).len() as int,
        ),
    ensures
        ({
            let bytes = journal_bytes(nonce, payloads) + tail;
            let at = frame_start(nonce, payloads, k);
            &&& run(bytes, nonce, table, at) == records.subrange(k, records.len() as int)
            &&& run_end(bytes, nonce, table, at) == journal_bytes(nonce, payloads).len()
        }),
    decreases payloads.len() - k,
{
    let all = journal_bytes(nonce, payloads);
    let bytes = all + tail;
    let at = frame_start(nonce, payloads, k);
    if k < payloads.len() {
        let before = journal_bytes(nonce, payloads.take(k));
        let rest = lemma_journal_split(nonce, payloads, k);
        let after = rest + tail;
        assert(bytes =~= before + framed(payloads[k], nonce) + after);
        lemma_frame_is_whole(before, payloads[k], nonce, after);
        assert(decoded(table, at) == Some(records[k]));
        assert(bytes.subrange(at, at + PREFIX) =~= le(payloads[k].len(), PREFIX as nat)) by {
            lemma_le_len(payloads[k].len(), PREFIX as nat);
        }
        assert(frame_end(bytes, at) == at + framed(payloads[k], nonce).len()) by {
            reveal_with_fuel(byte_range, 5);
            lemma_le_round_trip(payloads[k].len(), PREFIX as nat);
        }
        if k + 1 == payloads.len() {
            assert(payloads.take(k + 1) =~= payloads);
            assert(frame_start(nonce, payloads, k + 1) == all.len());
        }
        assert(frame_end(bytes, at) == frame_start(nonce, payloads, k + 1));
        lemma_run(nonce, payloads, records, table, tail, k + 1);
        assert(seq![records[k]] + records.subrange(k + 1, records.len() as int)
            =~= records.subrange(k, records.len() as int));
    } else {
        assert(payloads.take(k) =~= payloads);
        assert(records.subrange(k, records.len() as int) =~= Seq::<Record>::empty());
    }
}

/// What bx journals, it reads back: the bytes a session leaves, header and
/// frames, are read as that session's records, as many as it appended, in that
/// order.
///
/// The records are ones a session writes; a journal that grew past what memory
/// can address is left out.
pub proof fn a_journal_is_read_back(
    nonce: Seq<u8>,
    payloads: Seq<Seq<u8>>,
    records: Seq<Record>,
    table: Seq<(usize, Record)>,
)
    requires
        nonce.len() == NONCE,
        encodings(payloads),
        decodes(table, nonce, payloads, records),
        journal_bytes(nonce, payloads).len() <= usize::MAX,
        refused(records) is None,
    ensures
        verdict(journal_bytes(nonce, payloads), table) == if records.len() > 0
            && records.last() is End {
            Verdict::Terminated { records }
        } else {
            Verdict::Unterminated { records }
        },
{
    let bytes = journal_bytes(nonce, payloads);
    assert(bytes + Seq::<u8>::empty() =~= bytes);
    lemma_header(nonce, payloads, Seq::empty());
    lemma_run(nonce, payloads, records, table, Seq::empty(), 0);
    assert(payloads.take(0) =~= Seq::<Seq<u8>>::empty());
    assert(records.subrange(0, records.len() as int) =~= records);
}

proof fn lemma_header(nonce: Seq<u8>, payloads: Seq<Seq<u8>>, tail: Seq<u8>)
    requires
        nonce.len() == NONCE,
    ensures
        ({
            let bytes = journal_bytes(nonce, payloads) + tail;
            &&& bytes.len() >= HEADER
            &&& bytes.subrange(0, MAGIC_LEN as int) == magic()
            &&& bytes[MAGIC_LEN as int] == FORMAT
            &&& nonce_of(bytes) == nonce
        }),
{
    lemma_journal_len(nonce, payloads);
    let bytes = journal_bytes(nonce, payloads) + tail;
    let head = journal_bytes(nonce, payloads).subrange(0, HEADER as int);
    assert forall|k: int| 0 <= k < HEADER implies bytes[k] == header(nonce)[k] by {
        assert(bytes[k] == head[k]);
    }
    assert(bytes.subrange(0, MAGIC_LEN as int) =~= magic());
    assert(nonce_of(bytes) =~= nonce);
}

/// A session killed at any byte loses at most the frame it was appending: a
/// journal cut inside its frame `n` reads as the records before it, and counts
/// the bytes it discards. Cut between two frames it discards nothing.
///
/// Only a cut inside the first frame is not believed, and no crash makes one:
/// the header and the first frame are renamed into place together.
pub proof fn a_cut_journal_keeps_its_whole_frames(
    nonce: Seq<u8>,
    payloads: Seq<Seq<u8>>,
    records: Seq<Record>,
    table: Seq<(usize, Record)>,
    n: int,
    kept: int,
)
    requires
        nonce.len() == NONCE,
        encodings(payloads),
        decodes(table, nonce, payloads, records),
        journal_bytes(nonce, payloads).len() <= usize::MAX,
        refused(records) is None,
        0 <= n < payloads.len(),
        0 <= kept < PREFIX + CHECK + payloads[n].len(),
    ensures
        verdict(
            journal_bytes(nonce, payloads).take(frame_start(nonce, payloads, n) + kept),
            table,
        ) == if kept == 0 {
            Verdict::Unterminated { records: records.take(n) }
        } else if n == 0 {
            Verdict::Refused { why: "its first frame is not a whole record"@ }
        } else {
            Verdict::Torn { records: records.take(n), discarded: kept }
        },
{
    let rest = lemma_journal_split(nonce, payloads, n);
    let some = payloads.take(n);
    let before = journal_bytes(nonce, some);
    let tail = framed(payloads[n], nonce).subrange(0, kept);
    lemma_frame_is_whole(before, payloads[n], nonce, rest);
    let cut = journal_bytes(nonce, payloads).take(frame_start(nonce, payloads, n) + kept);
    assert(cut =~= before + tail);
    lemma_cut_frame_is_torn(before, payloads[n], nonce, kept);
    assert forall|k: int| 0 <= k < some.len() implies decoded(
        table,
        #[trigger] frame_start(nonce, some, k),
    ) == Some(records.take(n)[k]) by {
        assert(some.take(k) =~= payloads.take(k));
        assert(decoded(table, frame_start(nonce, payloads, k)) == Some(records[k]));
    }
    lemma_header(nonce, some, tail);
    lemma_run(nonce, some, records.take(n), table, tail, 0);
    assert(some.take(0) =~= Seq::<Seq<u8>>::empty());
    assert(records.take(n).subrange(0, n) =~= records.take(n));
    a_shorter_journal_is_believed(records, n);
    if n > 0 {
        lemma_only_the_last_ends(records, n - 1);
    }
    assert(run(cut, nonce, table, HEADER as int) == records.take(n));
    assert(run_end(cut, nonce, table, HEADER as int) == before.len());
    if n > 0 {
        assert(records.take(n).last() == records[n - 1]);
    }
}

/// A header cut short, or a header alone, is a session that wrote nothing.
pub proof fn a_cut_header_is_an_empty_session(
    nonce: Seq<u8>,
    table: Seq<(usize, Record)>,
    cut: int,
)
    requires
        nonce.len() == NONCE,
        0 <= cut <= HEADER,
    ensures
        verdict(header(nonce).take(cut), table) == (Verdict::Unterminated {
            records: Seq::empty(),
        }),
{
    let bytes = header(nonce).take(cut);
    if cut <= MAGIC_LEN {
        assert(bytes =~= magic().subrange(0, cut));
    } else {
        assert(bytes.subrange(0, MAGIC_LEN as int) =~= magic());
    }
}

proof fn lemma_no_fault(records: Seq<Record>, home: Seq<char>, from: int, i: int)
    requires
        1 <= from <= i < records.len(),
        first_fault(records, home, from) is None,
    ensures
        record_fault(records, home, i) is None,
    decreases i - from,
{
    if from < i {
        lemma_no_fault(records, home, from + 1, i);
    }
}

/// In records that are believed, only the last can be an end.
proof fn lemma_only_the_last_ends(records: Seq<Record>, i: int)
    requires
        refused(records) is None,
        0 <= i < records.len() - 1,
    ensures
        records[i] !is End,
{
    if i > 0 {
        lemma_no_fault(records, records[0]->Begin_0.home@, 1, i);
    }
}

/// The records of a verdict that believes.
pub open spec fn believed(verdict: Verdict) -> Option<Seq<Record>> {
    match verdict {
        Verdict::Terminated { records } => Some(records),
        Verdict::Unterminated { records } => Some(records),
        Verdict::Torn { records, .. } => Some(records),
        _ => None,
    }
}

/// Whatever bytes stand at a journal's path, what recovery acts on is what a
/// session could have written: one header, first, with an absolute home; every
/// write at exactly its target's place, staged beside it, claiming only
/// directories above it and below the home; no target written twice; and
/// nothing after an end.
pub proof fn recovery_acts_only_on_what_a_session_writes(
    bytes: Seq<u8>,
    table: Seq<(usize, Record)>,
)
    ensures
        believed(verdict(bytes, table)) matches Some(records) ==> records.len() > 0 ==> ({
            let home = records[0]->Begin_0.home@;
            &&& records[0] is Begin
            &&& absolute(home)
            &&& forall|i: int| 1 <= i < records.len() ==> (#[trigger] records[i]) !is Begin
            &&& forall|i: int| 0 <= i < records.len() - 1 ==> (#[trigger] records[i]) !is End
            &&& forall|i: int|
                1 <= i < records.len() && (#[trigger] records[i]) is Intent ==> misplacement(
                    records[i]->Intent_0,
                    home,
                ) is None && portable_against(records[i]->Intent_0.target@, home)
            &&& forall|i: int, j: int|
                1 <= i < j < records.len() && (#[trigger] records[i]) is Intent && (
                #[trigger] records[j]) is Intent ==> records[i]->Intent_0.target@
                    != records[j]->Intent_0.target@
        }),
{
    if let Some(records) = believed(verdict(bytes, table)) {
        if records.len() > 0 {
            assert(refused(records) is None);
            let home = records[0]->Begin_0.home@;
            assert forall|i: int| 1 <= i < records.len() implies record_fault(records, home, i) is None
                && !foreign(#[trigger] records[i], home) by {
                lemma_no_fault(records, home, 1, i);
            }
            assert forall|i: int, j: int|
                1 <= i < j < records.len() && (#[trigger] records[i]) is Intent && (
                #[trigger] records[j]) is Intent implies records[i]->Intent_0.target@
                != records[j]->Intent_0.target@ by {
                assert(!foreign(records[j], home));
                assert(!written_before(records, records[j]->Intent_0.target@, j));
            }
        }
    }
}

/// A journal is known by its first bytes: `BXJRNL`, a NUL and the format. One
/// that starts otherwise is refused, one of a later format is told from damage,
/// and one of an earlier format cannot be read.
pub proof fn a_journal_is_known_by_its_first_bytes(bytes: Seq<u8>, table: Seq<(usize, Record)>)
    ensures
        ({
            let name = seq![66u8, 88u8, 74u8, 82u8, 78u8, 76u8, 0u8];
            &&& (exists|k: int| 0 <= k < bytes.len() && k < 7 && bytes[k] != #[trigger] name[k])
                ==> verdict(bytes, table) == (Verdict::Refused {
                why: "it does not start with a bx journal header"@,
            })
            &&& bytes.len() > 7 && bytes.subrange(0, 7) == name ==> {
                &&& bytes[7] > 1 ==> verdict(bytes, table) == (Verdict::Future { found: bytes[7] })
                &&& bytes[7] == 0 ==> verdict(bytes, table) == (Verdict::Refused {
                    why: "it is a journal format this bx cannot read"@,
                })
            }
        }),
{
    let name = seq![66u8, 88u8, 74u8, 82u8, 78u8, 76u8, 0u8];
    assert(magic() =~= name);
    if exists|k: int| 0 <= k < bytes.len() && k < 7 && bytes[k] != #[trigger] name[k] {
        let k = choose|k: int| 0 <= k < bytes.len() && k < 7 && bytes[k] != #[trigger] name[k];
        if bytes.len() > MAGIC_LEN {
            assert(bytes.subrange(0, MAGIC_LEN as int)[k] == bytes[k]);
        }
    }
}

/// What follows the whole frames of a journal settles what it is. Bytes behind
/// an end, and a damaged frame with a whole one somewhere after it, are what no
/// crash leaves. Anything else that is not a whole frame is the tail of an
/// append that a crash cut short: the records before it count, and every byte
/// of it is discarded.
pub proof fn what_follows_the_whole_frames_settles_a_journal(
    nonce: Seq<u8>,
    payloads: Seq<Seq<u8>>,
    records: Seq<Record>,
    table: Seq<(usize, Record)>,
    tail: Seq<u8>,
)
    requires
        nonce.len() == NONCE,
        payloads.len() > 0,
        encodings(payloads),
        decodes(table, nonce, payloads, records),
        tail.len() > 0,
        (journal_bytes(nonce, payloads) + tail).len() <= usize::MAX,
        seal(
            journal_bytes(nonce, payloads) + tail,
            journal_bytes(nonce, payloads).len() as int,
            nonce,
        ) !is Whole || decoded(table, journal_bytes(nonce, payloads).len() as int) is None,
    ensures
        ({
            let bytes = journal_bytes(nonce, payloads) + tail;
            let end = journal_bytes(nonce, payloads).len() as int;
            let again = exists|s: int|
                end < s < bytes.len() && (#[trigger] seal(bytes, s, nonce)) is Whole && decoded(
                    table,
                    s,
                ) is Some;
            let cut = seal(bytes, end, nonce) is Torn;
            &&& records.last() is End ==> verdict(bytes, table) == (Verdict::Refused {
                why: "bytes follow the end of its session"@,
            })
            &&& records.last() !is End && !cut && again ==> verdict(bytes, table) == (
            Verdict::Refused {
                why: "a frame after its first is damaged, and a whole frame follows it"@,
            })
            &&& records.last() !is End && (cut || !again) && refused(records) is None ==> verdict(
                bytes,
                table,
            ) == (Verdict::Torn { records, discarded: tail.len() as int })
            &&& records.last() !is End && (cut || !again) && refused(records) is Some ==> verdict(
                bytes,
                table,
            ) == (Verdict::Refused { why: refused(records)->0 })
        }),
{
    let all = journal_bytes(nonce, payloads);
    let bytes = all + tail;
    let end = all.len() as int;
    lemma_header(nonce, payloads, tail);
    lemma_run(nonce, payloads, records, table, tail, 0);
    assert(payloads.take(0) =~= Seq::<Seq<u8>>::empty());
    assert(records.subrange(0, records.len() as int) =~= records);
    if whole_after(bytes, nonce, table, end) {
        let s = choose|s: int| end < s < bytes.len() && #[trigger] whole(bytes, nonce, table, s);
        assert(seal(bytes, s, nonce) is Whole);
    }
    if exists|s: int|
        end < s < bytes.len() && (#[trigger] seal(bytes, s, nonce)) is Whole && decoded(
            table,
            s,
        ) is Some {
        let s = choose|s: int|
            end < s < bytes.len() && (#[trigger] seal(bytes, s, nonce)) is Whole && decoded(
                table,
                s,
            ) is Some;
        assert(whole(bytes, nonce, table, s));
    }
}

/// A journal whose first frame is not a whole record is refused: no crash leaves
/// one.
pub proof fn a_journal_without_a_first_record_is_refused(
    nonce: Seq<u8>,
    table: Seq<(usize, Record)>,
    tail: Seq<u8>,
)
    requires
        nonce.len() == NONCE,
        tail.len() > 0,
        seal(header(nonce) + tail, 24, nonce) !is Whole || decoded(table, 24) is None,
    ensures
        verdict(header(nonce) + tail, table) == (Verdict::Refused {
            why: "its first frame is not a whole record"@,
        }),
{
    assert(journal_bytes(nonce, Seq::empty()) == header(nonce));
    lemma_header(nonce, Seq::empty(), tail);
}

/// What decoded at an offset is the first record handed in for it.
pub proof fn the_first_record_of_an_offset_counts(table: Seq<(usize, Record)>, i: int)
    requires
        0 <= i < table.len(),
        forall|j: int| 0 <= j < i ==> (#[trigger] table[j]).0 != table[i].0,
    ensures
        decoded(table, table[i].0 as int) == Some(table[i].1),
    decreases i,
{
    if i > 0 {
        let rest = table.drop_first();
        assert(rest[i - 1] == table[i]);
        assert forall|j: int| 0 <= j < i - 1 implies (#[trigger] rest[j]).0 != rest[i - 1].0 by {
            assert(rest[j] == table[j + 1]);
        }
        assert(table[0].0 != table[i].0);
        the_first_record_of_an_offset_counts(rest, i - 1);
    }
}

/// Nothing decoded at an offset that nothing was handed in for.
pub proof fn nothing_decodes_where_nothing_was_handed_in(table: Seq<(usize, Record)>, at: int)
    requires
        forall|j: int| 0 <= j < table.len() ==> (#[trigger] table[j]).0 != at,
    ensures
        decoded(table, at) is None,
    decreases table.len(),
{
    if table.len() > 0 {
        let rest = table.drop_first();
        assert forall|j: int| 0 <= j < rest.len() implies (#[trigger] rest[j]).0 != at by {
            assert(rest[j] == table[j + 1]);
        }
        assert(table[0].0 != at);
        nothing_decodes_where_nothing_was_handed_in(rest, at);
    }
}

/// The intents of a journal are its intents, one after another, and nothing
/// else.
pub proof fn the_intents_of_a_journal_are_kept_in_order(
    a: Seq<Record>,
    b: Seq<Record>,
    record: Record,
)
    ensures
        intents_of(Seq::empty()).len() == 0,
        intents_of(a + b) == intents_of(a) + intents_of(b),
        record matches Record::Intent(intent) ==> intents_of(a.push(record)) == intents_of(a).push(
            intent,
        ),
        record !is Intent ==> intents_of(a.push(record)) == intents_of(a),
    decreases b.len(),
{
    assert(a.push(record).drop_last() =~= a);
    if b.len() > 0 {
        the_intents_of_a_journal_are_kept_in_order(a, b.drop_last(), record);
        assert((a + b).drop_last() =~= a + b.drop_last());
        assert(intents_of(a + b) =~= intents_of(a) + intents_of(b));
    } else {
        assert(a + b =~= a);
        assert(intents_of(a + b) =~= intents_of(a) + intents_of(b));
    }
}

proof fn lemma_landed(records: Seq<Record>, i: int) -> (before: Seq<(Intent, bool)>)
    requires
        0 <= i <= records.len(),
    ensures
        landed_from(records, 0) == before + landed_from(records, i),
        before.len() == intents_of(records.take(i)).len(),
    decreases i,
{
    if i == 0 {
        assert(landed_from(records, 0) =~= Seq::empty() + landed_from(records, 0));
        Seq::empty()
    } else {
        let some = lemma_landed(records, i - 1);
        assert(records.take(i).drop_last() =~= records.take(i - 1));
        let before = match records[i - 1] {
            Record::Intent(intent) => some.push((intent, lands(records, i - 1))),
            _ => some,
        };
        assert(landed_from(records, 0) =~= before + landed_from(records, i));
        before
    }
}

/// Every intent is judged once, in its place, and it landed if and only if the
/// very next record is the completion of its own target.
pub proof fn a_write_landed_only_if_its_completion_is_next(records: Seq<Record>, i: int)
    requires
        0 <= i < records.len(),
        records[i] is Intent,
    ensures
        landed_from(records, 0).len() == intents_of(records).len(),
        landed_from(records, 0)[intents_of(records.take(i)).len() as int] == (
            records[i]->Intent_0,
            i + 1 < records.len() && records[i + 1] is Done && records[i + 1]->Done_0.target@
                == records[i]->Intent_0.target@,
        ),
{
    let all = lemma_landed(records, records.len() as int);
    assert(records.take(records.len() as int) =~= records);
    let before = lemma_landed(records, i);
    let rest = landed_from(records, i);
    assert(rest[0] == (records[i]->Intent_0, lands(records, i)));
    assert((before + rest)[before.len() as int] == rest[0]);
}

} // verus!
