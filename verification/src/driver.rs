//! The entry point: a fixed driver that calls the first two compiled
//! functions with literal arguments, prints one byte of each result inside
//! a message, and exits.
use vstd::prelude::*;
use crate::encoding::{
    append, le_bytes, le_value, lemma_le_bytes_len, lemma_le_value, radix, to_le_bytes,
};

verus! {

/// Length of the entry point's code.
pub const ENTRY_CODE_SIZE: u64 = 87;

/// Length of the message.
pub const MESSAGE_SIZE: u64 = 14;

/// Offset, inside the entry point's code, of the instruction after the
/// first call.
pub const FIRST_RETURN: u64 = 9;

/// Offset, inside the entry point's code, of the instruction after the
/// second call.
pub const SECOND_RETURN: u64 = 56;

/// How far back a 32-bit relative call reaches, and the first address
/// that a sign-extended 32-bit absolute operand cannot name.
pub const REACH: u64 = 0x8000_0000;

/// The operand of a call that lands `distance` bytes before the entry
/// point, the call's successor being `after` bytes past it: minus their
/// sum, in 32-bit two's complement.
pub open spec fn call_displacement(distance: nat, after: nat) -> Seq<u8> {
    le_bytes((0x1_0000_0000 - (distance + after)) as nat, 4)
}

/// The number that the four bytes of an operand denote in two's
/// complement.
pub open spec fn signed_operand(bytes: Seq<u8>) -> int {
    let v = le_value(bytes);
    if v < 0x8000_0000 {
        v as int
    } else {
        v - 0x1_0000_0000
    }
}

/// A call lands where its function starts: its operand, added to the
/// offset of the instruction after the call, gives the offset of the
/// function.
pub proof fn lemma_call_lands(entry_point_offset: nat, distance: nat, after: nat)
    requires
        distance + after <= REACH,
    ensures
        entry_point_offset + after + signed_operand(call_displacement(distance, after))
            == entry_point_offset - distance,
{
    let operand = (0x1_0000_0000 - (distance + after)) as nat;
    assert(radix(4) == 0x1_0000_0000) by {
        reveal_with_fuel(radix, 5);
    }
    lemma_le_value(operand, 4);
    if distance + after == 0 {
        assert(operand % 0x1_0000_0000 == 0);
    } else {
        assert(operand % 0x1_0000_0000 == operand);
    }
}

/// The message: `H <- result \n` and a zero byte. The results overwrite its
/// first byte.
#[verifier::opaque]
pub open spec fn message() -> Seq<u8> {
    seq![
        0x48u8, 0x20u8, 0x3cu8, 0x2du8, 0x20u8, 0x72u8, 0x65u8, 0x73u8, 0x75u8, 0x6cu8, 0x74u8,
        0x20u8, 0x0au8, 0x00u8,
    ]
}

/// The entry point's code, for a message at `buffer` and functions that
/// start `first` and `second` bytes before the entry point.
///
/// ```text
/// push 100; push 80; call first; mov [buffer], al
/// mov eax, 1; mov edi, 1; movabs rsi, buffer; mov edx, 14; syscall
/// push 4; push 30; push 1; push 2; call second; mov [buffer], al
/// mov eax, 1; mov edx, 14; syscall
/// mov eax, 60; mov edi, 0; syscall
/// ```
#[verifier::opaque]
pub open spec fn entry_code(buffer: u64, first: u64, second: u64) -> Seq<u8> {
    seq![0x6au8, 0x64u8, 0x6au8, 0x50u8, 0xe8u8] + call_displacement(
        first as nat,
        FIRST_RETURN as nat,
    ) + seq![0x88u8, 0x04u8, 0x25u8] + le_bytes(buffer as nat, 4) + seq![
        0xb8u8, 0x01u8, 0x00u8, 0x00u8, 0x00u8, 0xbfu8, 0x01u8, 0x00u8, 0x00u8, 0x00u8, 0x48u8,
        0xbeu8,
    ] + le_bytes(buffer as nat, 8) + seq![
        0xbau8, 0x0eu8, 0x00u8, 0x00u8, 0x00u8, 0x0fu8, 0x05u8,
    ] + seq![0x6au8, 0x04u8, 0x6au8, 0x1eu8, 0x6au8, 0x01u8, 0x6au8, 0x02u8, 0xe8u8]
        + call_displacement(second as nat, SECOND_RETURN as nat) + seq![0x88u8, 0x04u8, 0x25u8]
        + le_bytes(buffer as nat, 4) + seq![
        0xb8u8, 0x01u8, 0x00u8, 0x00u8, 0x00u8, 0xbau8, 0x0eu8, 0x00u8, 0x00u8, 0x00u8, 0x0fu8,
        0x05u8,
    ] + seq![
        0xb8u8, 0x3cu8, 0x00u8, 0x00u8, 0x00u8, 0xbfu8, 0x00u8, 0x00u8, 0x00u8, 0x00u8, 0x0fu8,
        0x05u8,
    ]
}

/// The entry point's code is 87 bytes long, whatever its operands.
pub proof fn lemma_entry_code_len(buffer: u64, first: u64, second: u64)
    ensures
        entry_code(buffer, first, second).len() == ENTRY_CODE_SIZE,
{
    broadcast use lemma_le_bytes_len;

    reveal(entry_code);
}

/// Where the two calls stand in the entry point's code: the opcode `E8`
/// at offsets 4 and 51, each followed by its operand.
pub proof fn lemma_entry_code_calls(buffer: u64, first: u64, second: u64)
    ensures
        entry_code(buffer, first, second).len() == ENTRY_CODE_SIZE,
        entry_code(buffer, first, second)[4] == 0xe8u8,
        entry_code(buffer, first, second).subrange(5, 9) == call_displacement(
            first as nat,
            FIRST_RETURN as nat,
        ),
        entry_code(buffer, first, second)[51] == 0xe8u8,
        entry_code(buffer, first, second).subrange(52, 56) == call_displacement(
            second as nat,
            SECOND_RETURN as nat,
        ),
{
    broadcast use lemma_le_bytes_len;

    reveal(entry_code);
    let code = entry_code(buffer, first, second);
    assert(code.subrange(5, 9) =~= call_displacement(first as nat, FIRST_RETURN as nat));
    assert(code.subrange(52, 56) =~= call_displacement(second as nat, SECOND_RETURN as nat));
}

/// The message is 14 bytes long.
pub proof fn lemma_message_len()
    ensures
        message().len() == MESSAGE_SIZE,
{
    reveal(message);
}

/// Emits the entry point's code.
///
/// `message_buffer_address` is the address of the message at run time;
/// `first_distance` and `second_distance` say how many bytes before the
/// entry point the two functions start.
pub fn entry_point_code(
    message_buffer_address: u64,
    first_distance: u64,
    second_distance: u64,
) -> (r: Vec<u8>)
    requires
        message_buffer_address < REACH,
        first_distance + FIRST_RETURN <= REACH,
        second_distance + SECOND_RETURN <= REACH,
    ensures
        r@ == entry_code(message_buffer_address, first_distance, second_distance),
        r@.len() == ENTRY_CODE_SIZE,
{
    let first_call: u64 = 0x1_0000_0000 - (first_distance + FIRST_RETURN);
    let second_call: u64 = 0x1_0000_0000 - (second_distance + SECOND_RETURN);
    let mut v: Vec<u8> = Vec::new();
    append(&mut v, vec![0x6a, 0x64, 0x6a, 0x50, 0xe8]);
    append(&mut v, to_le_bytes(first_call, 4));
    append(&mut v, vec![0x88, 0x04, 0x25]);
    append(&mut v, to_le_bytes(message_buffer_address, 4));
    append(&mut v, vec![0xb8, 0x01, 0x00, 0x00, 0x00, 0xbf, 0x01, 0x00, 0x00, 0x00, 0x48, 0xbe]);
    append(&mut v, to_le_bytes(message_buffer_address, 8));
    append(&mut v, vec![0xba, 0x0e, 0x00, 0x00, 0x00, 0x0f, 0x05]);
    append(&mut v, vec![0x6a, 0x04, 0x6a, 0x1e, 0x6a, 0x01, 0x6a, 0x02, 0xe8]);
    append(&mut v, to_le_bytes(second_call, 4));
    append(&mut v, vec![0x88, 0x04, 0x25]);
    append(&mut v, to_le_bytes(message_buffer_address, 4));
    append(&mut v, vec![0xb8, 0x01, 0x00, 0x00, 0x00, 0xba, 0x0e, 0x00, 0x00, 0x00, 0x0f, 0x05]);
    append(&mut v, vec![0xb8, 0x3c, 0x00, 0x00, 0x00, 0xbf, 0x00, 0x00, 0x00, 0x00, 0x0f, 0x05]);
    proof {
        broadcast use lemma_le_bytes_len;

        reveal(entry_code);
        assert(v@ =~= entry_code(message_buffer_address, first_distance, second_distance));
    }
    v
}

/// Emits the message that the entry point prints.
pub fn message_buffer() -> (r: Vec<u8>)
    ensures
        r@ == message(),
        r@.len() == MESSAGE_SIZE,
{
    proof {
        reveal(message);
    }
    vec![0x48, 0x20, 0x3c, 0x2d, 0x20, 0x72, 0x65, 0x73, 0x75, 0x6c, 0x74, 0x20, 0x0a, 0x00]
}

} // verus!
