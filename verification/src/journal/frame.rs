//! The frames a journal is made of.
//!
//! A loader has to tell "clean end of log" from "final record torn by a crash",
//! and it has to do so from data the format guarantees rather than from a
//! decoder's error kind. So every record is preceded by its length as a
//! little-endian `u32`: classification is an arithmetic comparison, and a run of
//! NUL bytes left by a filesystem cannot be a frame.
//!
//! A length tells a torn frame from a whole one. It cannot tell a whole frame
//! from a damaged one, so each frame also carries a checksum between its length
//! and its body: the first four bytes of the SHA-256 of both. A checksum of the
//! frame alone would validate a frame from any journal, and after a power loss
//! the unsynced tail of this one can hold blocks of an earlier, deleted one. So
//! every journal's header carries a nonce chosen when the session opens, and the
//! hash covers it too.

use crate::digest::{byte_range, from_le, le, le_bytes, lemma_le_round_trip, sha256, sha256_of};
use crate::text::{push_bytes, same_bytes};
use vstd::prelude::*;
use vstd::slice::{slice_subrange, slice_to_vec};

verus! {

/// The newest journal format this build writes and understands.
pub const FORMAT: u8 = 1;

/// The width of the per-session nonce every frame's checksum covers.
pub const NONCE: usize = 16;

/// The width of the magic every journal starts with.
pub const MAGIC_LEN: usize = 7;

/// The header's width: the magic, one version byte, and the session's nonce.
pub const HEADER: usize = 24;

/// The width of a frame's length.
pub const PREFIX: usize = 4;

/// The width of a frame's checksum.
pub const CHECK: usize = 4;

/// The widest frame body that will be written or read: 16 MiB.
///
/// A bound, not a budget: it is what stops four bytes of garbage from asking for
/// a gigabyte allocation.
pub const MAX_FRAME: usize = 16_777_216;

/// The seven bytes every journal starts with.
pub open spec fn magic() -> Seq<u8> {
    seq![66u8, 88u8, 74u8, 82u8, 78u8, 76u8, 0u8]
}

/// The seven bytes every journal starts with: `BXJRNL` and a NUL.
pub fn magic_bytes() -> (r: Vec<u8>)
    ensures
        r@ == magic(),
{
    let out: Vec<u8> = vec![66u8, 88u8, 74u8, 82u8, 78u8, 76u8, 0u8];
    assert(out@ =~= magic());
    out
}

/// The checksum a frame carries.
pub open spec fn sum(nonce: Seq<u8>, prefix: Seq<u8>, body: Seq<u8>) -> Seq<u8> {
    Seq::new(CHECK as nat, |i: int| sha256_of(nonce + prefix + body)[i])
}

/// The checksum a frame carries: the first [`CHECK`] bytes of the SHA-256 of
/// the session's nonce, the frame's length prefix, and its body.
pub fn checksum(nonce: &[u8], prefix: &[u8], body: &[u8]) -> (r: Vec<u8>)
    ensures
        r@ == sum(nonce@, prefix@, body@),
{
    let mut data = slice_to_vec(nonce);
    push_bytes(&mut data, prefix);
    push_bytes(&mut data, body);
    let digest = sha256(data.as_slice());
    let out = slice_to_vec(slice_subrange(digest.as_slice(), 0, CHECK));
    assert(out@ =~= sum(nonce@, prefix@, body@));
    out
}

/// What stands at an offset of a journal.
#[derive(Clone, Copy, Debug, PartialEq, Eq, Structural)]
pub enum Seal {
    /// The bytes stop before the frame does: a write a crash cut short, or a
    /// length that was damaged.
    Torn,
    /// The frame is all there, and it is not what bx wrote: its checksum fails,
    /// or its length is empty or past the bound.
    Broken,
    /// A frame whose checksum holds, and the offset past its last byte.
    Whole(usize),
}

/// What stands at offset `at` of `bytes`, under the session's `nonce`.
pub open spec fn seal(bytes: Seq<u8>, at: int, nonce: Seq<u8>) -> Seal {
    let body = at + PREFIX + CHECK;
    let prefix = bytes.subrange(at, at + PREFIX);
    let len = from_le(prefix);
    if body > bytes.len() {
        Seal::Torn
    } else if len == 0 || len > MAX_FRAME {
        Seal::Broken
    } else if body + len > bytes.len() {
        Seal::Torn
    } else if sum(nonce, prefix, bytes.subrange(body, body + len)) != bytes.subrange(
        at + PREFIX,
        body,
    ) {
        Seal::Broken
    } else {
        Seal::Whole((body + len) as usize)
    }
}

proof fn lemma_from_le_4(bytes: Seq<u8>)
    requires
        bytes.len() == 4,
    ensures
        from_le(bytes) == bytes[0] + 256 * bytes[1] + 65536 * bytes[2] + 16777216 * bytes[3],
{
    reveal_with_fuel(from_le, 5);
    assert(bytes.drop_first().drop_first().drop_first().drop_first().len() == 0);
}

/// Look at the frame at `at`: a little-endian `u32` length, a [`CHECK`]-byte
/// checksum under the session's `nonce`, and a body of that length.
///
/// A zero length is refused before its checksum is taken: every offset of a
/// zero-filled tail carries it.
pub fn seal_at(bytes: &[u8], at: usize, nonce: &[u8]) -> (r: Seal)
    requires
        at <= bytes.len(),
    ensures
        r == seal(bytes@, at as int, nonce@),
{
    if bytes.len() - at < PREFIX + CHECK {
        return Seal::Torn;
    }
    let prefix = slice_subrange(bytes, at, at + PREFIX);
    proof {
        lemma_from_le_4(prefix@);
    }
    let len: u64 = prefix[0] as u64 + 256 * (prefix[1] as u64) + 65536 * (prefix[2] as u64)
        + 16777216 * (prefix[3] as u64);
    if len == 0 || len > MAX_FRAME as u64 {
        return Seal::Broken;
    }
    let len: usize = len as usize;
    let body: usize = at + PREFIX + CHECK;
    if bytes.len() - body < len {
        return Seal::Torn;
    }
    let found = slice_subrange(bytes, at + PREFIX, body);
    let expected = checksum(nonce, prefix, slice_subrange(bytes, body, body + len));
    if same_bytes(expected.as_slice(), found) {
        Seal::Whole(body + len)
    } else {
        Seal::Broken
    }
}

/// One record's encoding as a frame.
pub open spec fn framed(payload: Seq<u8>, nonce: Seq<u8>) -> Seq<u8> {
    let prefix = le(payload.len(), PREFIX as nat);
    prefix + sum(nonce, prefix, payload) + payload
}

/// One record's encoding as a frame: its length as a little-endian `u32`, its
/// checksum under the session's `nonce`, then the encoding. `None` for one
/// wider than [`MAX_FRAME`].
pub fn encode(payload: &[u8], nonce: &[u8]) -> (r: Option<Vec<u8>>)
    ensures
        match r {
            Some(frame) => payload@.len() <= MAX_FRAME && frame@ == framed(payload@, nonce@),
            None => payload@.len() > MAX_FRAME,
        },
{
    if payload.len() > MAX_FRAME {
        return None;
    }
    let mut frame = le_bytes(payload.len() as u128, PREFIX);
    let check = checksum(nonce, frame.as_slice(), payload);
    push_bytes(&mut frame, check.as_slice());
    push_bytes(&mut frame, payload);
    Some(frame)
}

/// A journal's header.
pub open spec fn header(nonce: Seq<u8>) -> Seq<u8> {
    magic().push(FORMAT) + nonce
}

/// A journal as a session leaves it: its header, then each record's frame.
pub open spec fn journal_bytes(nonce: Seq<u8>, payloads: Seq<Seq<u8>>) -> Seq<u8>
    decreases payloads.len(),
{
    if payloads.len() == 0 {
        header(nonce)
    } else {
        journal_bytes(nonce, payloads.drop_last()) + framed(payloads.last(), nonce)
    }
}

/// A frame is found where it was written, whatever stands before and after it.
pub proof fn lemma_frame_is_whole(before: Seq<u8>, payload: Seq<u8>, nonce: Seq<u8>, after: Seq<u8>)
    requires
        0 < payload.len() <= MAX_FRAME,
        (before + framed(payload, nonce) + after).len() <= usize::MAX,
    ensures
        seal(before + framed(payload, nonce) + after, before.len() as int, nonce) == Seal::Whole(
            (before.len() + PREFIX + CHECK + payload.len()) as usize,
        ),
        framed(payload, nonce).len() == PREFIX + CHECK + payload.len(),
{
    let all = before + framed(payload, nonce) + after;
    let at = before.len() as int;
    let prefix = le(payload.len(), PREFIX as nat);
    reveal_with_fuel(byte_range, 5);
    lemma_le_round_trip(payload.len(), PREFIX as nat);
    assert(all.subrange(at, at + PREFIX) =~= prefix);
    let body = at + PREFIX + CHECK;
    assert(all.subrange(at + PREFIX, body) =~= sum(nonce, prefix, payload));
    assert(all.subrange(body, body + payload.len()) =~= payload);
}

/// A frame cut short is torn.
pub proof fn lemma_cut_frame_is_torn(
    before: Seq<u8>,
    payload: Seq<u8>,
    nonce: Seq<u8>,
    kept: int,
)
    requires
        0 < payload.len() <= MAX_FRAME,
        0 <= kept < PREFIX + CHECK + payload.len(),
    ensures
        seal(before + framed(payload, nonce).subrange(0, kept), before.len() as int, nonce)
            == Seal::Torn,
{
    let all = before + framed(payload, nonce).subrange(0, kept);
    let at = before.len() as int;
    let prefix = le(payload.len(), PREFIX as nat);
    reveal_with_fuel(byte_range, 5);
    lemma_le_round_trip(payload.len(), PREFIX as nat);
    if kept >= PREFIX + CHECK {
        assert(all.subrange(at, at + PREFIX) =~= prefix);
    }
}

/// A frame is its body's length in four bytes, the lowest first, the first four
/// bytes of the SHA-256 of the nonce, that length and the body, and the body.
pub proof fn a_frame_is_its_length_its_checksum_and_its_body(payload: Seq<u8>, nonce: Seq<u8>)
    requires
        payload.len() <= MAX_FRAME,
    ensures
        framed(payload, nonce).len() == 8 + payload.len(),
        framed(payload, nonce)[0] + 256 * framed(payload, nonce)[1] + 65536 * framed(
            payload,
            nonce,
        )[2] + 16777216 * framed(payload, nonce)[3] == payload.len(),
        forall|i: int|
            0 <= i < 4 ==> #[trigger] framed(payload, nonce)[4 + i] == sha256_of(
                nonce + framed(payload, nonce).subrange(0, 4) + payload,
            )[i],
        framed(payload, nonce).skip(8) == payload,
{
    let prefix = le(payload.len(), PREFIX as nat);
    let frame = framed(payload, nonce);
    reveal_with_fuel(byte_range, 5);
    lemma_le_round_trip(payload.len(), PREFIX as nat);
    lemma_from_le_4(prefix);
    assert(frame.subrange(0, 4) =~= prefix);
    assert(frame.skip(8) =~= payload);
    assert forall|i: int| 0 <= i < 4 implies frame[i] == prefix[i] by {}
    assert forall|i: int| 0 <= i < 4 implies #[trigger] frame[4 + i] == sha256_of(
        nonce + frame.subrange(0, 4) + payload,
    )[i] by {
        assert(frame[4 + i] == sum(nonce, prefix, payload)[i]);
    }
}

/// A frame is torn where the bytes stop before it does. It is broken where they
/// do not and its length is nothing or more than sixteen mebibytes, or its
/// checksum is not that of what stands there. Otherwise it is whole, and ends
/// where its body does.
pub proof fn a_frame_is_whole_only_if_its_checksum_holds(bytes: Seq<u8>, at: int, nonce: Seq<u8>)
    requires
        0 <= at <= bytes.len() <= usize::MAX,
    ensures
        at + 8 > bytes.len() ==> seal(bytes, at, nonce) is Torn,
        at + 8 <= bytes.len() ==> ({
            let len = bytes[at] + 256 * bytes[at + 1] + 65536 * bytes[at + 2] + 16777216 * bytes[at
                + 3];
            let body = bytes.subrange(at + 8, at + 8 + len);
            let signed = sha256_of(nonce + bytes.subrange(at, at + 4) + body);
            let holds = bytes[at + 4] == signed[0] && bytes[at + 5] == signed[1] && bytes[at + 6]
                == signed[2] && bytes[at + 7] == signed[3];
            &&& seal(bytes, at, nonce) is Torn <==> 0 < len <= 16777216 && at + 8 + len
                > bytes.len()
            &&& seal(bytes, at, nonce) is Whole <==> 0 < len <= 16777216 && at + 8 + len
                <= bytes.len() && holds
            &&& seal(bytes, at, nonce) is Whole ==> seal(bytes, at, nonce) == Seal::Whole(
                (at + 8 + len) as usize,
            )
        }),
{
    if at + 8 <= bytes.len() {
        let prefix = bytes.subrange(at, at + PREFIX);
        lemma_from_le_4(prefix);
        let len = from_le(prefix) as int;
        let body = bytes.subrange(at + 8, at + 8 + len);
        let signed = sha256_of(nonce + prefix + body);
        let expected = sum(nonce, prefix, body);
        let found = bytes.subrange(at + PREFIX, at + 8);
        if expected == found {
            assert forall|i: int| 0 <= i < 4 implies bytes[at + 4 + i] == signed[i] by {
                assert(found[i] == expected[i]);
            }
            assert(bytes[at + 4 + 0] == signed[0]);
            assert(bytes[at + 4 + 1] == signed[1]);
            assert(bytes[at + 4 + 2] == signed[2]);
            assert(bytes[at + 4 + 3] == signed[3]);
        } else if bytes[at + 4] == signed[0] && bytes[at + 5] == signed[1] && bytes[at + 6]
            == signed[2] && bytes[at + 7] == signed[3] {
            assert(expected =~= found);
        }
    }
}

/// A journal is `BXJRNL`, a NUL, the format and the nonce, and then a frame for
/// each record in the order they were appended.
pub proof fn a_journal_is_its_header_and_its_frames(
    nonce: Seq<u8>,
    payloads: Seq<Seq<u8>>,
    payload: Seq<u8>,
)
    ensures
        journal_bytes(nonce, Seq::empty()) == seq![66u8, 88u8, 74u8, 82u8, 78u8, 76u8, 0u8, 1u8]
            + nonce,
        journal_bytes(nonce, payloads.push(payload)) == journal_bytes(nonce, payloads) + framed(
            payload,
            nonce,
        ),
{
    assert(magic().push(FORMAT) =~= seq![66u8, 88u8, 74u8, 82u8, 78u8, 76u8, 0u8, 1u8]);
    assert(payloads.push(payload).drop_last() =~= payloads);
}

} // verus!
