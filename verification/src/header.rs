//! The four-byte frame header: an unsigned 32-bit number in the byte order of
//! the running machine.

use vstd::arithmetic::div_mod::lemma_fundamental_div_mod_converse;
use vstd::endian::{endianness, Endian};
use vstd::prelude::*;

verus! {

/// The number that four bytes spell when the first byte is the least significant.
pub open spec fn le_value(bytes: Seq<u8>) -> int {
    bytes[0] + 0x100 * bytes[1] + 0x1_0000 * bytes[2] + 0x100_0000 * bytes[3]
}

/// The number that four bytes spell when the first byte is the most significant.
pub open spec fn be_value(bytes: Seq<u8>) -> int {
    bytes[3] + 0x100 * bytes[2] + 0x1_0000 * bytes[1] + 0x100_0000 * bytes[0]
}

/// The four bytes of `value`, least significant first.
pub open spec fn le_bytes(value: u32) -> Seq<u8> {
    seq![
        (value % 0x100) as u8,
        (value / 0x100 % 0x100) as u8,
        (value / 0x1_0000 % 0x100) as u8,
        (value / 0x100_0000) as u8,
    ]
}

/// The four bytes of `value`, most significant first.
pub open spec fn be_bytes(value: u32) -> Seq<u8> {
    seq![
        (value / 0x100_0000) as u8,
        (value / 0x1_0000 % 0x100) as u8,
        (value / 0x100 % 0x100) as u8,
        (value % 0x100) as u8,
    ]
}

/// The number that a four-byte header spells on the running machine.
pub open spec fn header_value(bytes: Seq<u8>) -> int {
    match endianness() {
        Endian::Little => le_value(bytes),
        Endian::Big => be_value(bytes),
    }
}

/// The four header bytes that spell `value` on the running machine.
pub open spec fn header_bytes(value: u32) -> Seq<u8> {
    match endianness() {
        Endian::Little => le_bytes(value),
        Endian::Big => be_bytes(value),
    }
}

/// Every four bytes spell a number that fits in 32 bits.
pub proof fn lemma_header_value_range(bytes: Seq<u8>)
    requires
        bytes.len() == 4,
    ensures
        0 <= header_value(bytes) <= u32::MAX,
{
}

/// Reading the header bytes of a number gives the number back.
pub proof fn lemma_header_value_of_bytes(value: u32)
    ensures
        header_bytes(value).len() == 4,
        header_value(header_bytes(value)) == value,
{
}

/// Four digits below 256 are recovered from the number they spell in base 256.
proof fn lemma_base_256_digits(d0: int, d1: int, d2: int, d3: int)
    requires
        0 <= d0 < 0x100,
        0 <= d1 < 0x100,
        0 <= d2 < 0x100,
        0 <= d3 < 0x100,
    ensures
        ({
            let n = d0 + 0x100 * d1 + 0x1_0000 * d2 + 0x100_0000 * d3;
            &&& 0 <= n <= u32::MAX
            &&& n % 0x100 == d0
            &&& n / 0x100 % 0x100 == d1
            &&& n / 0x1_0000 % 0x100 == d2
            &&& n / 0x100_0000 == d3
        }),
{
    let n = d0 + 0x100 * d1 + 0x1_0000 * d2 + 0x100_0000 * d3;
    let upper_three = d1 + 0x100 * d2 + 0x1_0000 * d3;
    let upper_two = d2 + 0x100 * d3;
    lemma_fundamental_div_mod_converse(n, 0x100, upper_three, d0);
    lemma_fundamental_div_mod_converse(upper_three, 0x100, upper_two, d1);
    lemma_fundamental_div_mod_converse(n, 0x1_0000, upper_two, d0 + 0x100 * d1);
    lemma_fundamental_div_mod_converse(upper_two, 0x100, d3, d2);
    lemma_fundamental_div_mod_converse(n, 0x100_0000, d3, d0 + 0x100 * d1 + 0x1_0000 * d2);
}

/// Writing the number that four bytes spell gives the same four bytes.
pub proof fn lemma_header_bytes_of_value(bytes: Seq<u8>)
    requires
        bytes.len() == 4,
    ensures
        header_bytes(header_value(bytes) as u32) == bytes,
{
    match endianness() {
        Endian::Little => {
            lemma_base_256_digits(
                bytes[0] as int,
                bytes[1] as int,
                bytes[2] as int,
                bytes[3] as int,
            );
        },
        Endian::Big => {
            lemma_base_256_digits(
                bytes[3] as int,
                bytes[2] as int,
                bytes[1] as int,
                bytes[0] as int,
            );
        },
    }
    assert(header_bytes(header_value(bytes) as u32) =~= bytes);
}

/// Wraps `u32::to_ne_bytes`: the result is the memory representation of
/// `value` in the machine's byte order, least significant byte first on a
/// little-endian machine and most significant byte first on a big-endian one.
#[verifier::external_body]
pub(crate) fn u32_to_ne_bytes(value: u32) -> (bytes: [u8; 4])
    ensures
        bytes@ == header_bytes(value),
{
    value.to_ne_bytes()
}

/// Wraps `u32::from_ne_bytes`: the result is the number whose memory
/// representation in the machine's byte order is `bytes`.
#[verifier::external_body]
pub(crate) fn u32_from_ne_bytes(bytes: [u8; 4]) -> (value: u32)
    ensures
        value == header_value(bytes@),
{
    u32::from_ne_bytes(bytes)
}

} // verus!
