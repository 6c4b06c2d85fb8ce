//! The size prefix of an SEI message.
//!
//! An SEI message starts with its payload type and its payload size. Each of
//! the two numbers is written as a run of `FF` bytes, which count 255 each,
//! closed by one byte below 255 that holds the rest.

use crate::sink::{
    lemma_write_failed, lemma_write_nothing, lemma_write_then, write_outcome, write_u8, wrote_all,
    ByteSink, WriteError,
};
use vstd::prelude::*;

verus! {

/// The payload type of unregistered user data.
pub const USER_DATA_UNREGISTERED: usize = 5;

/// `n` as a run of `n / 255` bytes `FF` and one closing byte `n % 255`.
pub open spec fn ff_coded(n: nat) -> Seq<u8>
    decreases n,
{
    if n >= 255 {
        seq![0xffu8] + ff_coded((n - 255) as nat)
    } else {
        seq![n as u8]
    }
}

/// The prefix of an SEI message: the payload type, then the payload size.
pub open spec fn sei_header(payload_type: nat, payload_size: nat) -> Seq<u8> {
    ff_coded(payload_type) + ff_coded(payload_size)
}

/// An SEI message of unregistered user data that carries `record`.
pub open spec fn sei_message(record: Seq<u8>) -> Seq<u8> {
    sei_header(USER_DATA_UNREGISTERED as nat, record.len()) + record
}

/// The number that stands at the front of `bytes`, as a decoder reads it:
/// it adds up the bytes until one is below 255.
pub open spec fn ff_decoded(bytes: Seq<u8>) -> nat
    decreases bytes.len(),
{
    if bytes.len() == 0 {
        0
    } else if bytes[0] == 0xff {
        255 + ff_decoded(bytes.skip(1))
    } else {
        bytes[0] as nat
    }
}

/// How many bytes the number at the front of `bytes` takes up.
pub open spec fn ff_width(bytes: Seq<u8>) -> nat
    decreases bytes.len(),
{
    if bytes.len() == 0 {
        0
    } else if bytes[0] == 0xff {
        1 + ff_width(bytes.skip(1))
    } else {
        1
    }
}

/// A number is coded in one byte more than the times 255 goes into it.
pub proof fn lemma_ff_coded_len(n: nat)
    ensures
        ff_coded(n).len() == n / 255 + 1,
    decreases n,
{
    if n >= 255 {
        lemma_ff_coded_len((n - 255) as nat);
    }
}

/// All bytes of a coded number but the last are `FF`.
pub proof fn lemma_ff_coded_shape(n: nat)
    ensures
        forall|i: int| 0 <= i < ff_coded(n).len() - 1 ==> #[trigger] ff_coded(n)[i] == 0xff,
    decreases n,
{
    if n >= 255 {
        let m = (n - 255) as nat;
        lemma_ff_coded_shape(m);
        assert forall|i: int| 0 <= i < ff_coded(n).len() - 1 implies #[trigger] ff_coded(n)[i]
            == 0xff by {
            if i > 0 {
                assert(ff_coded(n)[i] == ff_coded(m)[i - 1]);
            }
        }
    }
}

/// A decoder reads a coded number back, whatever follows it, and stops
/// right behind it.
pub proof fn lemma_ff_round_trip(n: nat, rest: Seq<u8>)
    ensures
        ff_decoded(ff_coded(n) + rest) == n,
        ff_width(ff_coded(n) + rest) == ff_coded(n).len(),
    decreases n,
{
    let all = ff_coded(n) + rest;
    if n >= 255 {
        let m = (n - 255) as nat;
        lemma_ff_round_trip(m, rest);
        assert(all.skip(1) =~= ff_coded(m) + rest);
        assert(all[0] == 0xff);
    } else {
        assert(all[0] == n as u8);
    }
}

/// The size prefix of an SEI message tells the exact length of the record
/// behind it: a decoder that reads the payload type and then the payload
/// size finds the type of unregistered user data, finds the number of bytes
/// of `record`, and has then arrived at `record` itself.
pub proof fn lemma_sei_size_round_trip(record: Seq<u8>)
    ensures
        ({
            let message = sei_message(record);
            let after_type = message.skip(ff_width(message) as int);
            let after_size = after_type.skip(ff_width(after_type) as int);
            &&& ff_decoded(message) == USER_DATA_UNREGISTERED
            &&& ff_decoded(after_type) == record.len()
            &&& after_size == record
        }),
{
    let kind = ff_coded(USER_DATA_UNREGISTERED as nat);
    let size = ff_coded(record.len());
    let message = sei_message(record);
    assert(message =~= kind + (size + record));
    lemma_ff_round_trip(USER_DATA_UNREGISTERED as nat, size + record);
    let after_type = message.skip(ff_width(message) as int);
    assert(after_type =~= size + record);
    lemma_ff_round_trip(record.len(), record);
    assert(after_type.skip(ff_width(after_type) as int) =~= record);
}

/// The shape of a message: the byte `05`, then the size of the record as a
/// run of `FF` bytes closed by one byte below `FF`, then the record and
/// nothing else. The bytes of the size add up to the length of the record.
pub proof fn lemma_sei_message_shape(record: Seq<u8>)
    ensures
        ({
            let size = ff_coded(record.len());
            &&& sei_message(record) == seq![5u8] + size + record
            &&& size.len() == record.len() / 255 + 1
            &&& forall|i: int| 0 <= i < size.len() - 1 ==> #[trigger] size[i] == 0xff
            &&& size.last() < 0xff
            &&& ff_decoded(size + record) == record.len()
            &&& ff_width(size + record) == size.len()
        }),
{
    let size = ff_coded(record.len());
    lemma_ff_coded_len(record.len());
    lemma_ff_coded_shape(record.len());
    lemma_ff_coded_last(record.len());
    lemma_ff_round_trip(record.len(), record);
    assert(ff_coded(USER_DATA_UNREGISTERED as nat) =~= seq![5u8]);
}

/// The last byte of a coded number is below `FF`.
pub proof fn lemma_ff_coded_last(n: nat)
    ensures
        ff_coded(n).last() < 0xff,
    decreases n,
{
    if n >= 255 {
        let m = (n - 255) as nat;
        lemma_ff_coded_last(m);
        lemma_ff_coded_len(m);
        assert(ff_coded(n).last() == ff_coded(m).last());
    }
}

/// Writes `value` as a run of `FF` bytes and a closing byte.
fn write_ff_coded<W: ByteSink>(writer: &mut W, value: usize) -> (r: Result<(), WriteError>)
    requires
        old(writer).inv(),
    ensures
        write_outcome(*old(writer), *final(writer), ff_coded(value as nat), r),
{
    let mut rest = value;
    let ghost mut done: Seq<u8> = Seq::empty();
    proof {
        lemma_write_nothing(*old(writer));
    }
    while rest >= 255
        invariant
            old(writer).inv(),
            wrote_all(*old(writer), *writer, done),
            done + ff_coded(rest as nat) == ff_coded(value as nat),
        decreases rest,
    {
        let ghost before = *writer;
        let r = write_u8(writer, 255);
        proof {
            let tail = ff_coded((rest - 255) as nat);
            assert(ff_coded(rest as nat) == seq![0xffu8] + tail);
            lemma_write_then(*old(writer), before, *writer, done, seq![0xffu8], r);
            if r is Err {
                lemma_write_failed(*old(writer), *writer, done + seq![0xffu8], tail, r);
            }
            assert((done + seq![0xffu8]) + tail =~= done + (seq![0xffu8] + tail));
        }
        match r {
            Ok(()) => {},
            Err(e) => {
                return Err(e);
            },
        }
        rest -= 255;
        proof {
            done = done + seq![0xffu8];
        }
    }
    let ghost before = *writer;
    let r = write_u8(writer, rest as u8);
    proof {
        lemma_write_then(*old(writer), before, *writer, done, seq![rest as u8], r);
    }
    r
}

/// Writes the prefix of an SEI message: the payload type, then the payload size.
pub fn write_sei_header<W: ByteSink>(writer: &mut W, payload_type: usize, payload_size: usize) -> (r:
    Result<(), WriteError>)
    requires
        old(writer).inv(),
    ensures
        write_outcome(
            *old(writer),
            *final(writer),
            sei_header(payload_type as nat, payload_size as nat),
            r,
        ),
{
    let ghost kind = ff_coded(payload_type as nat);
    let ghost size = ff_coded(payload_size as nat);
    match write_ff_coded(writer, payload_type) {
        Ok(()) => {},
        Err(e) => {
            proof {
                lemma_write_failed(*old(writer), *writer, kind, size, Err(e));
            }
            return Err(e);
        },
    }
    let ghost mid = *writer;
    let r = write_ff_coded(writer, payload_size);
    proof {
        lemma_write_then(*old(writer), mid, *writer, kind, size, r);
    }
    r
}

} // verus!
