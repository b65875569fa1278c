//! SHA-256, and numbers as bytes.

use vstd::prelude::*;

verus! {

/// What `sha2::Sha256::digest` returns for some bytes.
pub uninterp spec fn sha256_of(data: Seq<u8>) -> Seq<u8>;

/// The SHA-256 of `data`, by `sha2::Sha256::digest`: 32 bytes that the data
/// alone decides. What they are is not said.
#[verifier::external_body]
pub(crate) fn sha256(data: &[u8]) -> (r: Vec<u8>)
    ensures
        r@ == sha256_of(data@),
        r@.len() == 32,
{
    <sha2::Sha256 as sha2::Digest>::digest(data).to_vec()
}

/// The `width` low bytes of `n`, the lowest first.
pub open spec fn le(n: nat, width: nat) -> Seq<u8>
    decreases width,
{
    if width == 0 {
        Seq::empty()
    } else {
        seq![(n % 256) as u8] + le(n / 256, (width - 1) as nat)
    }
}

/// The number whose bytes are `bytes`, the lowest first.
pub open spec fn from_le(bytes: Seq<u8>) -> nat
    decreases bytes.len(),
{
    if bytes.len() == 0 {
        0
    } else {
        bytes[0] as nat + 256 * from_le(bytes.drop_first())
    }
}

/// 256 to the `width`.
pub open spec fn byte_range(width: nat) -> nat
    decreases width,
{
    if width == 0 {
        1
    } else {
        256 * byte_range((width - 1) as nat)
    }
}

/// The bytes of a number that fits are read back as the number.
pub proof fn lemma_le_round_trip(n: nat, width: nat)
    requires
        n < byte_range(width),
    ensures
        le(n, width).len() == width,
        from_le(le(n, width)) == n,
    decreases width,
{
    if width > 0 {
        lemma_le_round_trip(n / 256, (width - 1) as nat);
        assert(le(n, width).drop_first() =~= le(n / 256, (width - 1) as nat));
    }
}

/// The bytes of a number are as many as were asked for.
pub proof fn lemma_le_len(n: nat, width: nat)
    ensures
        le(n, width).len() == width,
    decreases width,
{
    if width > 0 {
        lemma_le_len(n / 256, (width - 1) as nat);
    }
}

/// The `width` low bytes of `n`, the lowest first.
pub fn le_bytes(n: u128, width: usize) -> (r: Vec<u8>)
    ensures
        r@ == le(n as nat, width as nat),
{
    let mut out: Vec<u8> = Vec::new();
    let mut left: u128 = n;
    let mut i: usize = 0;
    while i < width
        invariant
            i <= width,
            out@ + le(left as nat, (width - i) as nat) == le(n as nat, width as nat),
        decreases width - i,
    {
        let ghost before = out@;
        out.push((left % 256) as u8);
        assert(out@ + le(left as nat / 256, (width - i - 1) as nat) =~= before + le(
            left as nat,
            (width - i) as nat,
        ));
        left = left / 256;
        i = i + 1;
    }
    assert(out@ =~= le(n as nat, width as nat));
    out
}

} // verus!
