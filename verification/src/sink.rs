//! Byte sinks: where the writers of this crate put their output.

use vstd::prelude::*;

verus! {

/// An AVCC NAL unit would have outgrown what its length field can express.
#[derive(Clone, Copy, Debug, PartialEq, Eq)]
pub struct MaxNalUnitSizeExceededError {
    /// The largest body the length field can express.
    pub max: usize,
    /// The size the body would have reached.
    pub required: usize,
}

/// Why a write did not go through.
#[derive(Clone, Copy, Debug, PartialEq, Eq)]
pub enum WriteError {
    /// The sink refused the bytes for want of room.
    NalUnitTooLarge(MaxNalUnitSizeExceededError),
    /// A value does not fit the field that has to carry it.
    NumericOverflow,
}

/// A destination for bytes.
///
/// A sink is described by the bytes it has taken so far and by a predicate
/// telling which contents it is able to hold. A write either appends all of
/// its bytes or fails, having appended only a part of them.
pub trait ByteSink: Sized {
    /// The sink is in a consistent state.
    spec fn inv(&self) -> bool;

    /// Every byte the sink has taken, oldest first.
    spec fn taken(&self) -> Seq<u8>;

    /// Whether the sink is able to hold `content` as all that it has taken.
    spec fn holds(&self, content: Seq<u8>) -> bool;

    /// The error with which the sink answers a write that would have it
    /// take `content` as a whole, where it does not hold `content`.
    spec fn refusal(&self, content: Seq<u8>) -> WriteError;

    /// Whether the sink is what `before` may have become by taking bytes:
    /// everything about it but what it has taken is as it was.
    spec fn follows(&self, before: &Self) -> bool;

    /// A sink follows itself.
    proof fn follows_itself(&self)
        ensures
            self.follows(self),
    ;

    /// What follows a follower follows the first sink too.
    proof fn follows_on(&self, mid: &Self, before: &Self)
        requires
            mid.follows(before),
            self.follows(mid),
        ensures
            self.follows(before),
    ;

    /// Taking bytes does not change what a sink is able to hold, nor how
    /// it refuses what it does not hold.
    proof fn follows_holds(&self, before: &Self, content: Seq<u8>)
        requires
            self.follows(before),
        ensures
            self.holds(content) == before.holds(content),
            self.refusal(content) == before.refusal(content),
    ;

    /// A sink holds what it has taken already.
    proof fn holds_taken(&self)
        requires
            self.inv(),
        ensures
            self.holds(self.taken()),
    ;

    /// A sink that holds some content also holds every prefix of it.
    proof fn holds_prefix(&self, content: Seq<u8>, k: int)
        requires
            self.inv(),
            self.holds(content),
            0 <= k <= content.len(),
        ensures
            self.holds(content.take(k)),
    ;

    /// Appends `buf` to the sink and returns its length.
    ///
    /// Succeeds exactly when the sink holds what it has taken followed by
    /// `buf`. On failure a proper prefix of `buf` may have been appended, and
    /// the sink is spent: nothing more is promised of it. The error is the
    /// refusal of the sink at the point where it took no more: at some front
    /// part of `buf` that it does not hold.
    fn write(&mut self, buf: &[u8]) -> (r: Result<usize, WriteError>)
        requires
            old(self).inv(),
        ensures
            r is Ok <==> old(self).holds(old(self).taken() + buf@),
            r matches Ok(n) ==> {
                &&& n == buf@.len()
                &&& final(self).inv()
                &&& final(self).taken() == old(self).taken() + buf@
                &&& final(self).follows(old(self))
            },
            r matches Err(e) ==> {
                &&& e is NalUnitTooLarge
                &&& wrote_part(old(self).taken(), final(self).taken(), buf@)
                &&& exists|cut: int|
                    0 <= cut <= buf@.len() && !old(self).holds(
                        old(self).taken() + #[trigger] buf@.take(cut),
                    ) && e == old(self).refusal(old(self).taken() + buf@.take(cut))
            },
    ;
}

/// `after` is the sink `before` once it has taken all of `wanted`: it is
/// consistent, follows `before`, and has `wanted` appended.
pub open spec fn wrote_all<W: ByteSink>(before: W, after: W, wanted: Seq<u8>) -> bool {
    &&& after.inv()
    &&& after.taken() == before.taken() + wanted
    &&& after.follows(&before)
}

/// `after` is `before` followed by a proper prefix of `wanted`.
pub open spec fn wrote_part(before: Seq<u8>, after: Seq<u8>, wanted: Seq<u8>) -> bool {
    exists|k: int| 0 <= k < wanted.len() && after == before + #[trigger] wanted.take(k)
}

/// `e` is the refusal of the sink `before` on its way to taking `wanted`:
/// the error with which it refuses some front part of `wanted` that it does
/// not hold.
pub open spec fn refused<W: ByteSink>(before: W, wanted: Seq<u8>, e: WriteError) -> bool {
    exists|cut: int|
        0 <= cut <= wanted.len() && !before.holds(before.taken() + #[trigger] wanted.take(cut))
            && e == before.refusal(before.taken() + wanted.take(cut))
}

/// How an attempt to write all of `wanted` went: it went through exactly
/// when the sink `before` holds it, and then it was written whole; else it
/// was written in part, and the error is the refusal of the sink.
pub open spec fn write_outcome<W: ByteSink>(
    before: W,
    after: W,
    wanted: Seq<u8>,
    r: Result<(), WriteError>,
) -> bool {
    &&& r is Ok <==> before.holds(before.taken() + wanted)
    &&& r is Ok ==> wrote_all(before, after, wanted)
    &&& r matches Err(e) ==> {
        &&& e is NalUnitTooLarge
        &&& wrote_part(before.taken(), after.taken(), wanted)
        &&& refused(before, wanted, e)
    }
}

/// Writing `first` whole and then attempting `second` is an attempt at `first + second`.
pub proof fn lemma_write_then<W: ByteSink>(
    start: W,
    mid: W,
    end: W,
    first: Seq<u8>,
    second: Seq<u8>,
    r: Result<(), WriteError>,
)
    requires
        wrote_all(start, mid, first),
        write_outcome(mid, end, second, r),
    ensures
        write_outcome(start, end, first + second, r),
{
    assert(mid.taken() + second =~= start.taken() + (first + second));
    mid.follows_holds(&start, mid.taken() + second);
    let whole = first + second;
    match r {
        Ok(_) => {
            end.follows_on(&mid, &start);
        },
        Err(e) => {
            let k = choose|k: int|
                0 <= k < second.len() && end.taken() == mid.taken() + #[trigger] second.take(k);
            assert(whole.take(first.len() + k) =~= first + second.take(k));
            assert(end.taken() =~= start.taken() + whole.take(first.len() + k));
            let cut = choose|cut: int|
                0 <= cut <= second.len() && !mid.holds(mid.taken() + #[trigger] second.take(cut))
                    && e == mid.refusal(mid.taken() + second.take(cut));
            let asked = mid.taken() + second.take(cut);
            mid.follows_holds(&start, asked);
            assert(asked =~= start.taken() + whole.take(first.len() + cut));
        },
    }
}

/// An attempt that failed on `first` is a failed attempt at `first + second`.
pub proof fn lemma_write_failed<W: ByteSink>(
    start: W,
    end: W,
    first: Seq<u8>,
    second: Seq<u8>,
    r: Result<(), WriteError>,
)
    requires
        start.inv(),
        r is Err,
        write_outcome(start, end, first, r),
    ensures
        write_outcome(start, end, first + second, r),
{
    let whole = first + second;
    if start.holds(start.taken() + whole) {
        let all = start.taken() + whole;
        let k = (start.taken().len() + first.len()) as int;
        start.holds_prefix(all, k);
        assert(all.take(k) =~= start.taken() + first);
    }
    let k = choose|k: int|
        0 <= k < first.len() && end.taken() == start.taken() + #[trigger] first.take(k);
    assert(whole.take(k) =~= first.take(k));
    let e = r->Err_0;
    let cut = choose|cut: int|
        0 <= cut <= first.len() && !start.holds(start.taken() + #[trigger] first.take(cut)) && e
            == start.refusal(start.taken() + first.take(cut));
    assert(whole.take(cut) =~= first.take(cut));
}

/// One step of a write in pieces: `done` was written whole, then `piece`
/// was attempted, and `rest` is still to come. Where the step went through,
/// `done + piece` is written whole; where not, the write as a whole failed.
pub proof fn lemma_write_step<W: ByteSink>(
    start: W,
    mid: W,
    end: W,
    done: Seq<u8>,
    piece: Seq<u8>,
    rest: Seq<u8>,
    r: Result<(), WriteError>,
)
    requires
        start.inv(),
        wrote_all(start, mid, done),
        write_outcome(mid, end, piece, r),
    ensures
        r is Ok ==> wrote_all(start, end, done + piece),
        r is Err ==> write_outcome(start, end, done + piece + rest, r),
{
    lemma_write_then(start, mid, end, done, piece, r);
    if r is Err {
        lemma_write_failed(start, end, done + piece, rest, r);
    }
}

/// What was written whole was an attempt that went through.
pub proof fn lemma_write_done<W: ByteSink>(start: W, end: W, whole: Seq<u8>)
    requires
        wrote_all(start, end, whole),
    ensures
        write_outcome(start, end, whole, Ok::<(), WriteError>(())),
{
    end.holds_taken();
    end.follows_holds(&start, end.taken());
}

/// A sink that has been written nothing is as it was.
pub proof fn lemma_write_nothing<W: ByteSink>(start: W)
    requires
        start.inv(),
    ensures
        wrote_all(start, start, Seq::<u8>::empty()),
{
    assert(start.taken() + Seq::<u8>::empty() =~= start.taken());
    start.follows_itself();
}

/// A sink that refuses to take one byte refuses what it has taken with
/// that byte behind it.
pub proof fn lemma_refused_byte<W: ByteSink>(sink: W, byte: u8, e: WriteError)
    requires
        sink.inv(),
        refused(sink, seq![byte], e),
    ensures
        !sink.holds(sink.taken().push(byte)),
        e == sink.refusal(sink.taken().push(byte)),
{
    let one = seq![byte];
    let cut = choose|cut: int|
        0 <= cut <= one.len() && !sink.holds(sink.taken() + #[trigger] one.take(cut)) && e
            == sink.refusal(sink.taken() + one.take(cut));
    sink.holds_taken();
    assert(sink.taken() + one.take(0) =~= sink.taken());
    assert(sink.taken() + one.take(1) =~= sink.taken().push(byte));
}

/// Writes all of `buf` to `sink`.
pub fn write_all<W: ByteSink>(sink: &mut W, buf: &[u8]) -> (r: Result<(), WriteError>)
    requires
        old(sink).inv(),
    ensures
        write_outcome(*old(sink), *final(sink), buf@, r),
{
    match sink.write(buf) {
        Ok(_) => Ok(()),
        Err(e) => Err(e),
    }
}

/// Writes the single byte `byte` to `sink`.
pub fn write_u8<W: ByteSink>(sink: &mut W, byte: u8) -> (r: Result<(), WriteError>)
    requires
        old(sink).inv(),
    ensures
        write_outcome(*old(sink), *final(sink), seq![byte], r),
{
    let one = [byte];
    assert(one@ =~= seq![byte]);
    write_all(sink, one.as_slice())
}

impl ByteSink for Vec<u8> {
    open spec fn inv(&self) -> bool {
        true
    }

    open spec fn taken(&self) -> Seq<u8> {
        self@
    }

    open spec fn holds(&self, content: Seq<u8>) -> bool {
        true
    }

    /// A vector refuses nothing; the value is of no account.
    open spec fn refusal(&self, content: Seq<u8>) -> WriteError {
        WriteError::NumericOverflow
    }

    open spec fn follows(&self, before: &Self) -> bool {
        true
    }

    proof fn follows_itself(&self) {
    }

    proof fn follows_on(&self, mid: &Self, before: &Self) {
    }

    proof fn follows_holds(&self, before: &Self, content: Seq<u8>) {
    }

    proof fn holds_taken(&self) {
    }

    proof fn holds_prefix(&self, content: Seq<u8>, k: int) {
    }

    /// A vector takes every write whole.
    fn write(&mut self, buf: &[u8]) -> (r: Result<usize, WriteError>)
        ensures
            r is Ok,
    {
        self.extend_from_slice(buf);
        assert(self@ =~= old(self)@ + buf@);
        Ok(buf.len())
    }
}

/// A sink that throws the bytes away and keeps count of them.
///
/// It serves to measure a record before the record is written for good.
/// The count stops growing at `usize::MAX`.
pub struct CountingSink {
    count: usize,
    taken: Ghost<Seq<u8>>,
}

/// `len`, or `usize::MAX` where `len` lies beyond it.
pub open spec fn saturated(len: nat) -> usize {
    if len <= usize::MAX {
        len as usize
    } else {
        usize::MAX
    }
}

impl CountingSink {
    /// A sink that has counted nothing yet.
    pub fn new() -> (sink: Self)
        ensures
            sink.inv(),
            sink.taken() == Seq::<u8>::empty(),
    {
        Self { count: 0, taken: Ghost(Seq::empty()) }
    }

    /// The number of bytes taken so far.
    pub fn count(&self) -> (n: usize)
        requires
            self.inv(),
        ensures
            n == saturated(self.taken().len()),
    {
        self.count
    }

    /// Does nothing: there is nothing to flush.
    pub fn flush(&mut self)
        ensures
            *final(self) == *old(self),
    {
    }
}

impl ByteSink for CountingSink {
    closed spec fn inv(&self) -> bool {
        self.count == saturated(self.taken@.len())
    }

    closed spec fn taken(&self) -> Seq<u8> {
        self.taken@
    }

    open spec fn holds(&self, content: Seq<u8>) -> bool {
        true
    }

    /// A counting sink refuses nothing; the value is of no account.
    open spec fn refusal(&self, content: Seq<u8>) -> WriteError {
        WriteError::NumericOverflow
    }

    open spec fn follows(&self, before: &Self) -> bool {
        true
    }

    proof fn follows_itself(&self) {
    }

    proof fn follows_on(&self, mid: &Self, before: &Self) {
    }

    proof fn follows_holds(&self, before: &Self, content: Seq<u8>) {
    }

    proof fn holds_taken(&self) {
    }

    proof fn holds_prefix(&self, content: Seq<u8>, k: int) {
    }

    /// A counting sink takes every write.
    fn write(&mut self, buf: &[u8]) -> (r: Result<usize, WriteError>)
        ensures
            r is Ok,
    {
        self.count = self.count.saturating_add(buf.len());
        self.taken = Ghost(self.taken@ + buf@);
        Ok(buf.len())
    }
}

} // verus!
