//! Big-endian layouts of unsigned integers.

use byteorder::{BigEndian, ByteOrder};
use uuid::Uuid;
use vstd::prelude::*;

verus! {

/// The `width` low-order bytes of `value`, most significant first.
pub open spec fn be_bytes(value: nat, width: nat) -> Seq<u8>
    decreases width,
{
    if width == 0 {
        Seq::empty()
    } else {
        be_bytes(value / 256, (width - 1) as nat).push((value % 256) as u8)
    }
}

/// The number that `bytes` spell, most significant byte first.
pub open spec fn be_value(bytes: Seq<u8>) -> nat
    decreases bytes.len(),
{
    if bytes.len() == 0 {
        0
    } else {
        be_value(bytes.drop_last()) * 256 + bytes.last() as nat
    }
}

/// The largest number that `width` bytes can spell, plus one.
pub open spec fn be_bound(width: nat) -> nat
    decreases width,
{
    if width == 0 {
        1
    } else {
        256 * be_bound((width - 1) as nat)
    }
}

/// A big-endian layout is as wide as it was asked to be.
pub proof fn lemma_be_bytes_len(value: nat, width: nat)
    ensures
        be_bytes(value, width).len() == width,
    decreases width,
{
    if width > 0 {
        lemma_be_bytes_len(value / 256, (width - 1) as nat);
    }
}

/// Reading a big-endian layout gives back the number that was laid out,
/// provided the number fits the width.
pub proof fn lemma_be_round_trip(value: nat, width: nat)
    requires
        value < be_bound(width),
    ensures
        be_value(be_bytes(value, width)) == value,
    decreases width,
{
    if width > 0 {
        let rest = be_bytes(value / 256, (width - 1) as nat);
        lemma_be_round_trip(value / 256, (width - 1) as nat);
        assert(be_bytes(value, width).drop_last() =~= rest);
    }
}

/// The two bytes of `value`, most significant first.
///
/// Trusted: this is `byteorder::BigEndian::write_u16` on a buffer of two
/// bytes, which stores the number in big-endian order.
#[verifier::external_body]
pub(crate) fn u16_be_bytes(value: u16) -> (bytes: [u8; 2])
    ensures
        bytes@ == be_bytes(value as nat, 2),
{
    let mut bytes = [0u8; 2];
    BigEndian::write_u16(&mut bytes, value);
    bytes
}

/// The four bytes of `value`, most significant first.
///
/// Trusted: this is `byteorder::BigEndian::write_u32` on a buffer of four
/// bytes, which stores the number in big-endian order.
#[verifier::external_body]
pub(crate) fn u32_be_bytes(value: u32) -> (bytes: [u8; 4])
    ensures
        bytes@ == be_bytes(value as nat, 4),
{
    let mut bytes = [0u8; 4];
    BigEndian::write_u32(&mut bytes, value);
    bytes
}

/// The eight bytes of `value`, most significant first.
///
/// Trusted: this is `byteorder::BigEndian::write_u64` on a buffer of eight
/// bytes, which stores the number in big-endian order.
#[verifier::external_body]
pub(crate) fn u64_be_bytes(value: u64) -> (bytes: [u8; 8])
    ensures
        bytes@ == be_bytes(value as nat, 8),
{
    let mut bytes = [0u8; 8];
    BigEndian::write_u64(&mut bytes, value);
    bytes
}

/// The sixteen bytes of the UUID whose 128-bit value is `value`.
///
/// Trusted: this is `uuid::Uuid::from_u128` followed by
/// `uuid::Uuid::into_bytes`; the first builds the UUID from the number taken
/// in big-endian order, the second hands out its bytes as they are stored.
#[verifier::external_body]
pub(crate) fn uuid_bytes(value: u128) -> (bytes: [u8; 16])
    ensures
        bytes@ == be_bytes(value as nat, 16),
{
    Uuid::from_u128(value).into_bytes()
}

} // verus!
