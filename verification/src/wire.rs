//! Fixed-width integers inside byte buffers.
//!
//! Network fields are big-endian. Fields that the kernel writes in host order
//! are little-endian: every Mac that the client supports (`x86_64` and
//! `aarch64`) is a little-endian machine.

use vstd::prelude::*;

verus! {

/// The big-endian 16-bit value at `at`.
pub open spec fn be16(bytes: Seq<u8>, at: int) -> int {
    bytes[at] * 0x100 + bytes[at + 1]
}

/// The big-endian 32-bit value at `at`.
pub open spec fn be32(bytes: Seq<u8>, at: int) -> int {
    be16(bytes, at) * 0x1_0000 + be16(bytes, at + 2)
}

/// The big-endian 128-bit value at `at`.
pub open spec fn be128(bytes: Seq<u8>, at: int) -> int {
    be32(bytes, at) * 0x1_0000_0000_0000_0000_0000_0000 + be32(bytes, at + 4)
        * 0x1_0000_0000_0000_0000 + be32(bytes, at + 8) * 0x1_0000_0000 + be32(bytes, at + 12)
}

/// The 16-bit value that the host stored at `at`.
pub open spec fn host16(bytes: Seq<u8>, at: int) -> int {
    bytes[at] + bytes[at + 1] * 0x100
}

/// The 32-bit value that the host stored at `at`.
pub open spec fn host32(bytes: Seq<u8>, at: int) -> int {
    host16(bytes, at) + host16(bytes, at + 2) * 0x1_0000
}

/// Reads the big-endian 16-bit value at `at`.
pub fn read_be16(bytes: &[u8], at: usize) -> (value: u16)
    requires
        at + 2 <= bytes.len(),
    ensures
        value == be16(bytes@, at as int),
{
    bytes[at] as u16 * 0x100 + bytes[at + 1] as u16
}

/// Reads the big-endian 32-bit value at `at`.
pub fn read_be32(bytes: &[u8], at: usize) -> (value: u32)
    requires
        at + 4 <= bytes.len(),
    ensures
        value == be32(bytes@, at as int),
{
    read_be16(bytes, at) as u32 * 0x1_0000 + read_be16(bytes, at + 2) as u32
}

/// Reads the big-endian 128-bit value at `at`.
pub fn read_be128(bytes: &[u8], at: usize) -> (value: u128)
    requires
        at + 16 <= bytes.len(),
    ensures
        value == be128(bytes@, at as int),
{
    read_be32(bytes, at) as u128 * 0x1_0000_0000_0000_0000_0000_0000 + read_be32(
        bytes,
        at + 4,
    ) as u128 * 0x1_0000_0000_0000_0000 + read_be32(bytes, at + 8) as u128 * 0x1_0000_0000
        + read_be32(bytes, at + 12) as u128
}

/// Reads the 16-bit value that the host stored at `at`.
pub fn read_host16(bytes: &[u8], at: usize) -> (value: u16)
    requires
        at + 2 <= bytes.len(),
    ensures
        value == host16(bytes@, at as int),
{
    bytes[at] as u16 + bytes[at + 1] as u16 * 0x100
}

/// Reads the 32-bit value that the host stored at `at`.
pub fn read_host32(bytes: &[u8], at: usize) -> (value: u32)
    requires
        at + 4 <= bytes.len(),
    ensures
        value == host32(bytes@, at as int),
{
    read_host16(bytes, at) as u32 + read_host16(bytes, at + 2) as u32 * 0x1_0000
}

/// The number that the bytes denote, the first byte weighing most.
pub open spec fn big_endian(bytes: Seq<u8>) -> nat
    decreases bytes.len(),
{
    if bytes.len() == 0 {
        0
    } else {
        big_endian(bytes.drop_last()) * 256 + bytes.last() as nat
    }
}

/// One more byte behind multiplies by 256 and adds the byte.
pub proof fn a_byte_behind_shifts_the_number(bytes: Seq<u8>, last: u8)
    ensures
        big_endian(bytes.push(last)) == big_endian(bytes) * 256 + last,
{
    assert(bytes.push(last).drop_last() == bytes);
}

/// The number of a longer sequence, from those of its two parts of which the
/// second is two bytes long.
proof fn lemma_two_more(front: Seq<u8>, first: u8, second: u8)
    ensures
        big_endian(front + seq![first, second]) == big_endian(front) * 65536 + first * 256 + second,
{
    a_byte_behind_shifts_the_number(front, first);
    a_byte_behind_shifts_the_number(front.push(first), second);
    assert(front + seq![first, second] == front.push(first).push(second));
}

/// The number of a longer sequence of which the last four bytes are given.
proof fn lemma_four_more(front: Seq<u8>, bytes: Seq<u8>, at: int)
    requires
        0 <= at,
        at + 4 <= bytes.len(),
    ensures
        big_endian(front + bytes.subrange(at, at + 4)) == big_endian(front) * 0x1_0000_0000
            + bytes[at] * 0x100_0000 + bytes[at + 1] * 0x1_0000 + bytes[at + 2] * 0x100 + bytes[at
            + 3],
{
    let half = front + seq![bytes[at], bytes[at + 1]];
    lemma_two_more(front, bytes[at], bytes[at + 1]);
    lemma_two_more(half, bytes[at + 2], bytes[at + 3]);
    assert(front + bytes.subrange(at, at + 4) == half + seq![bytes[at + 2], bytes[at + 3]]);
}

/// Network fields are read byte by byte, the first byte weighing most: a field
/// has the number that its bytes denote.
pub proof fn network_fields_are_big_endian(bytes: Seq<u8>, at: int)
    requires
        0 <= at,
    ensures
        at + 2 <= bytes.len() ==> be16(bytes, at) == big_endian(bytes.subrange(at, at + 2)),
        at + 4 <= bytes.len() ==> be32(bytes, at) == big_endian(bytes.subrange(at, at + 4)),
        at + 16 <= bytes.len() ==> be128(bytes, at) == big_endian(bytes.subrange(at, at + 16)),
{
    let none = Seq::<u8>::empty();
    if at + 2 <= bytes.len() {
        lemma_two_more(none, bytes[at], bytes[at + 1]);
        assert(none + seq![bytes[at], bytes[at + 1]] == bytes.subrange(at, at + 2));
    }
    if at + 4 <= bytes.len() {
        lemma_four_more(none, bytes, at);
        assert(none + bytes.subrange(at, at + 4) == bytes.subrange(at, at + 4));
    }
    if at + 16 <= bytes.len() {
        lemma_four_more(bytes.subrange(at, at + 4), bytes, at + 4);
        assert(bytes.subrange(at, at + 4) + bytes.subrange(at + 4, at + 8) == bytes.subrange(
            at,
            at + 8,
        ));
        lemma_four_more(bytes.subrange(at, at + 8), bytes, at + 8);
        assert(bytes.subrange(at, at + 8) + bytes.subrange(at + 8, at + 12) == bytes.subrange(
            at,
            at + 12,
        ));
        lemma_four_more(bytes.subrange(at, at + 12), bytes, at + 12);
        assert(bytes.subrange(at, at + 12) + bytes.subrange(at + 12, at + 16) == bytes.subrange(
            at,
            at + 16,
        ));
    }
}

/// Fields of the host are read the other way round: the last byte weighs most.
pub proof fn host_fields_are_little_endian(bytes: Seq<u8>, at: int)
    requires
        0 <= at,
    ensures
        at + 2 <= bytes.len() ==> host16(bytes, at) == big_endian(
            bytes.subrange(at, at + 2).reverse(),
        ),
        at + 4 <= bytes.len() ==> host32(bytes, at) == big_endian(
            bytes.subrange(at, at + 4).reverse(),
        ),
{
    if at + 2 <= bytes.len() {
        let turned = bytes.subrange(at, at + 2).reverse();
        network_fields_are_big_endian(turned, 0);
        assert(turned.subrange(0, 2) == turned);
    }
    if at + 4 <= bytes.len() {
        let turned = bytes.subrange(at, at + 4).reverse();
        network_fields_are_big_endian(turned, 0);
        assert(turned.subrange(0, 4) == turned);
    }
}

} // verus!
