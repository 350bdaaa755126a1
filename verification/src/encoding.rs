//! Fixed-width little-endian encodings of unsigned integers.
//!
//! The fields of the ELF records are encoded by `bincode`, one integer at
//! a time; the four functions that call it are the only code of the
//! library that is not verified.
use vstd::prelude::*;

verus! {

/// The `width`-byte little-endian representation of `value`: the least
/// significant byte comes first, and what does not fit in `width` bytes is
/// dropped.
pub open spec fn le_bytes(value: nat, width: nat) -> Seq<u8>
    decreases width,
{
    if width == 0 {
        Seq::empty()
    } else {
        seq![(value % 256) as u8] + le_bytes(value / 256, (width - 1) as nat)
    }
}

/// A little-endian encoding is as long as its width.
pub broadcast proof fn lemma_le_bytes_len(value: nat, width: nat)
    ensures
        #[trigger] le_bytes(value, width).len() == width,
    decreases width,
{
    if width > 0 {
        lemma_le_bytes_len(value / 256, (width - 1) as nat);
    }
}

/// The number that little-endian bytes denote.
pub open spec fn le_value(bytes: Seq<u8>) -> nat
    decreases bytes.len(),
{
    if bytes.len() == 0 {
        0
    } else {
        bytes[0] as nat + 256 * le_value(bytes.drop_first())
    }
}

/// How many numbers `width` bytes can tell apart: 256 to the power of
/// `width`.
pub open spec fn radix(width: nat) -> nat
    decreases width,
{
    if width == 0 {
        1
    } else {
        256 * radix((width - 1) as nat)
    }
}

/// Decoding an encoding gives the number back, as far as the width holds
/// it.
pub proof fn lemma_le_value(value: nat, width: nat)
    ensures
        radix(width) > 0,
        le_value(le_bytes(value, width)) == value % radix(width),
    decreases width,
{
    if width > 0 {
        let rest = (width - 1) as nat;
        lemma_le_value(value / 256, rest);
        lemma_le_bytes_len(value, width);
        assert(le_bytes(value, width).drop_first() =~= le_bytes(value / 256, rest));
        assert(le_bytes(value, width)[0] == (value % 256) as u8);
        vstd::arithmetic::div_mod::lemma_breakdown(value as int, 256, radix(rest) as int);
    }
}

/// The one-byte encoding of a byte is that byte.
pub proof fn lemma_le_bytes_of_byte(value: u8)
    ensures
        le_bytes(value as nat, 1) == seq![value],
{
    reveal_with_fuel(le_bytes, 2);
    assert(le_bytes(value as nat, 1) =~= seq![value]);
}

/// The low `width` bytes of `value`, least significant first.
pub fn to_le_bytes(value: u64, width: usize) -> (r: Vec<u8>)
    ensures
        r@ == le_bytes(value as nat, width as nat),
{
    let mut out: Vec<u8> = Vec::new();
    let mut rest: u64 = value;
    let mut i: usize = 0;
    while i < width
        invariant
            i <= width,
            out@ + le_bytes(rest as nat, (width - i) as nat) == le_bytes(value as nat, width as nat),
        decreases width - i,
    {
        proof {
            assert(out@.push((rest % 256) as u8) + le_bytes((rest / 256) as nat, (width - i - 1) as nat)
                =~= out@ + le_bytes(rest as nat, (width - i) as nat));
        }
        out.push((rest % 256) as u8);
        rest = rest / 256;
        i += 1;
    }
    proof {
        assert(out@ + le_bytes(rest as nat, 0) =~= out@);
    }
    out
}

/// Calls `bincode::serialize` on a `u8`; the contract is taken on trust.
///
/// That function encodes integers at their fixed width, in little-endian
/// order, into a fresh vector without a size limit: a byte is written as
/// itself, and the call cannot fail.
#[verifier::external_body]
pub(crate) fn encode_u8(value: u8) -> (r: Vec<u8>)
    ensures
        r@ == le_bytes(value as nat, 1),
{
    bincode::serialize(&value).unwrap()
}

/// Calls `bincode::serialize` on a `u16`; the contract is taken on trust.
///
/// The result is the two bytes of the value, low byte first; the call
/// cannot fail.
#[verifier::external_body]
pub(crate) fn encode_u16(value: u16) -> (r: Vec<u8>)
    ensures
        r@ == le_bytes(value as nat, 2),
{
    bincode::serialize(&value).unwrap()
}

/// Calls `bincode::serialize` on a `u32`; the contract is taken on trust.
///
/// The result is the four bytes of the value, low byte first; the call
/// cannot fail.
#[verifier::external_body]
pub(crate) fn encode_u32(value: u32) -> (r: Vec<u8>)
    ensures
        r@ == le_bytes(value as nat, 4),
{
    bincode::serialize(&value).unwrap()
}

/// Calls `bincode::serialize` on a `u64`; the contract is taken on trust.
///
/// The result is the eight bytes of the value, low byte first; the call
/// cannot fail.
#[verifier::external_body]
pub(crate) fn encode_u64(value: u64) -> (r: Vec<u8>)
    ensures
        r@ == le_bytes(value as nat, 8),
{
    bincode::serialize(&value).unwrap()
}

/// Moves `bytes` to the end of `out`.
pub(crate) fn append(out: &mut Vec<u8>, bytes: Vec<u8>)
    ensures
        final(out)@ == old(out)@ + bytes@,
{
    let mut bytes = bytes;
    out.append(&mut bytes);
}

} // verus!
