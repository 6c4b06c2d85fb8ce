//! AVCC framing: NAL units told apart by a length in front of each.
//!
//! The length of a unit is known only when the unit is complete, so a unit
//! is gathered in a buffer and handed to the sink when it is finished, with
//! its length before it.

pub use crate::sink::MaxNalUnitSizeExceededError;

use crate::endian::{
    be_bound, be_bytes, be_value, lemma_be_bytes_len, lemma_be_round_trip, u16_be_bytes,
    u32_be_bytes,
};
use crate::nal::{H264ByteStreamWrite, NalHeader, NalUnitWrite, NalUnitWriter};
use crate::rbsp::{escape, RbspWrite, RbspWriter, RBSP_STOP_BYTE};
use crate::sink::{
    lemma_write_nothing, lemma_write_step, lemma_write_then, refused, saturated, write_all,
    write_u8, wrote_all, ByteSink, WriteError,
};
use crate::time::Duration;
use crate::webvtt::{WebvttTrack, WebvttWrite};
use vstd::prelude::*;

verus! {

/// A length field of this many bytes is not supported.
#[derive(Clone, Copy, Debug)]
pub struct InvalidLengthError(pub usize);

/// Whether a length field may have `length_size` bytes.
pub open spec fn valid_length_size(length_size: usize) -> bool {
    length_size == 1 || length_size == 2 || length_size == 4
}

/// The largest body that a length field of `length_size` bytes can announce.
pub open spec fn max_nal_unit_size(length_size: usize) -> usize {
    if length_size == 1 {
        0xff
    } else if length_size == 2 {
        0xffff
    } else {
        0xffff_ffff
    }
}

/// A NAL unit as it stands in an AVCC stream: the length of `body` in
/// `length_size` bytes, most significant first, then `body`.
pub open spec fn avcc_unit(length_size: usize, body: Seq<u8>) -> Seq<u8> {
    be_bytes(body.len(), length_size as nat) + body
}

/// The length prefix tells the exact length of the body: the first
/// `length_size` bytes of a unit spell, most significant byte first, the
/// number of the bytes that follow, and those are the body.
pub proof fn lemma_length_prefix(length_size: usize, body: Seq<u8>)
    requires
        valid_length_size(length_size),
        body.len() <= max_nal_unit_size(length_size),
    ensures
        ({
            let unit = avcc_unit(length_size, body);
            &&& unit.len() == length_size + body.len()
            &&& be_value(unit.take(length_size as int)) == body.len()
            &&& unit.skip(length_size as int) == body
        }),
{
    let prefix = be_bytes(body.len(), length_size as nat);
    let unit = avcc_unit(length_size, body);
    lemma_be_bytes_len(body.len(), length_size as nat);
    assert(be_bound(length_size as nat) > max_nal_unit_size(length_size)) by {
        reveal_with_fuel(be_bound, 5);
    }
    lemma_be_round_trip(body.len(), length_size as nat);
    assert(unit.take(length_size as int) =~= prefix);
    assert(unit.skip(length_size as int) =~= body);
}

/// A sink on which NAL units are framed with length prefixes.
pub struct AVCCWriter<W: ByteSink> {
    length_size: usize,
    inner: W,
}

impl<W: ByteSink> AVCCWriter<W> {
    /// The sink that the units go to.
    pub closed spec fn sink(&self) -> W {
        self.inner
    }

    /// The number of bytes of the length field.
    pub closed spec fn length_size(&self) -> usize {
        self.length_size
    }

    /// The length field has one, two or four bytes.
    #[verifier::type_invariant]
    pub closed spec fn well_formed(&self) -> bool {
        valid_length_size(self.length_size)
    }

    /// Sets up the framing on `inner`, with length fields of `length_size` bytes.
    pub fn new(length_size: usize, inner: W) -> (r: Result<Self, InvalidLengthError>)
        ensures
            match r {
                Ok(writer) => {
                    &&& valid_length_size(length_size)
                    &&& writer.length_size() == length_size
                    &&& writer.sink() == inner
                },
                Err(e) => !valid_length_size(length_size) && e.0 == length_size,
            },
    {
        if length_size == 1 || length_size == 2 || length_size == 4 {
            Ok(Self { length_size, inner })
        } else {
            Err(InvalidLengthError(length_size))
        }
    }

    /// Gives the sink back.
    pub fn into_inner(self) -> (inner: W)
        ensures
            inner == self.sink(),
    {
        self.inner
    }
}

impl<W: ByteSink> H264ByteStreamWrite<W> for AVCCWriter<W> {
    type Writer = AVCCNalUnitWriter<AVCCWriterBuffer<W>>;

    /// The framing is ready when its sink is sound.
    open spec fn ready(&self) -> bool {
        self.sink().inv()
    }

    /// Starts a NAL unit in an empty buffer.
    fn start_write_nal_unit(self) -> (r: Result<AVCCNalUnitWriter<AVCCWriterBuffer<W>>, WriteError>)
        ensures
            r matches Ok(writer) && writer.sink().inv() && writer.sink().writer() == self
                && writer.sink().taken() == Seq::<u8>::empty(),
    {
        Ok(AVCCNalUnitWriter { inner: NalUnitWriter::new(AVCCWriterBuffer::new(self)) })
    }
}

/// The buffer in which one NAL unit is gathered.
pub struct AVCCWriterBuffer<W: ByteSink> {
    avcc_buffer: Vec<u8>,
    avcc_writer: AVCCWriter<W>,
}

impl<W: ByteSink> AVCCWriterBuffer<W> {
    /// The framing that the finished unit goes to.
    pub closed spec fn writer(&self) -> AVCCWriter<W> {
        self.avcc_writer
    }

    /// An empty buffer for a unit that goes to `avcc_writer`.
    pub fn new(avcc_writer: AVCCWriter<W>) -> (buffer: Self)
        requires
            avcc_writer.sink().inv(),
        ensures
            buffer.inv(),
            buffer.writer() == avcc_writer,
            buffer.taken() == Seq::<u8>::empty(),
    {
        proof {
            use_type_invariant(&avcc_writer);
        }
        Self { avcc_buffer: Vec::new(), avcc_writer }
    }

    /// Hands the unit to the sink: its length in as many bytes as the
    /// length field has, most significant first, then the unit itself.
    pub fn finish(self) -> (r: Result<AVCCWriter<W>, WriteError>)
        requires
            self.inv(),
        ensures
            r is Ok <==> self.writer().sink().holds(
                self.writer().sink().taken() + avcc_unit(self.writer().length_size(), self.taken()),
            ),
            r matches Ok(writer) ==> {
                &&& writer.length_size() == self.writer().length_size()
                &&& wrote_all(
                    self.writer().sink(),
                    writer.sink(),
                    avcc_unit(self.writer().length_size(), self.taken()),
                )
            },
            r matches Err(e) ==> e is NalUnitTooLarge && refused(
                self.writer().sink(),
                avcc_unit(self.writer().length_size(), self.taken()),
                e,
            ),
    {
        let length_size = self.avcc_writer.length_size;
        let mut inner = self.avcc_writer.inner;
        let ghost start = inner;
        let ghost body = self.avcc_buffer@;
        let ghost prefix = be_bytes(body.len(), length_size as nat);
        let len = self.avcc_buffer.len();
        proof {
            lemma_write_nothing(start);
            assert(Seq::<u8>::empty() + prefix =~= prefix);
            reveal_with_fuel(be_bytes, 2);
        }
        let r = if length_size == 1 {
            assert(prefix =~= seq![len as u8]);
            write_u8(&mut inner, len as u8)
        } else if length_size == 2 {
            let bytes = u16_be_bytes(len as u16);
            write_all(&mut inner, bytes.as_slice())
        } else {
            let bytes = u32_be_bytes(len as u32);
            write_all(&mut inner, bytes.as_slice())
        };
        proof {
            lemma_write_step(start, start, inner, Seq::empty(), prefix, body, r);
        }
        if let Err(e) = r {
            return Err(e);
        }
        let ghost mid = inner;
        let r = write_all(&mut inner, self.avcc_buffer.as_slice());
        proof {
            lemma_write_then(start, mid, inner, prefix, body, r);
        }
        match r {
            Ok(()) => Ok(AVCCWriter { length_size, inner }),
            Err(e) => Err(e),
        }
    }

    /// Flushes nothing: the unit stays in the buffer until it is finished.
    pub fn flush(&mut self)
        ensures
            *final(self) == *old(self),
    {
    }
}

impl<W: ByteSink> ByteSink for AVCCWriterBuffer<W> {
    closed spec fn inv(&self) -> bool {
        &&& valid_length_size(self.avcc_writer.length_size)
        &&& self.avcc_buffer@.len() <= max_nal_unit_size(self.avcc_writer.length_size)
        &&& self.avcc_writer.inner.inv()
    }

    /// The unit as far as it has been gathered.
    closed spec fn taken(&self) -> Seq<u8> {
        self.avcc_buffer@
    }

    /// The buffer holds what the length field can announce.
    open spec fn holds(&self, content: Seq<u8>) -> bool {
        content.len() <= max_nal_unit_size(self.writer().length_size())
    }

    /// The buffer refuses with the limit and the size that was asked for.
    open spec fn refusal(&self, content: Seq<u8>) -> WriteError {
        WriteError::NalUnitTooLarge(
            MaxNalUnitSizeExceededError {
                max: max_nal_unit_size(self.writer().length_size()),
                required: saturated(content.len()),
            },
        )
    }

    /// The buffer has the same framing underneath as before.
    open spec fn follows(&self, before: &Self) -> bool {
        self.writer() == before.writer()
    }

    proof fn follows_itself(&self) {
    }

    proof fn follows_on(&self, mid: &Self, before: &Self) {
    }

    proof fn follows_holds(&self, before: &Self, content: Seq<u8>) {
    }

    proof fn holds_taken(&self) {
    }

    proof fn holds_prefix(&self, content: Seq<u8>, k: int) {
    }

    /// Appends `buf` to the unit, unless the unit would outgrow what the
    /// length field can announce: then nothing is appended, and the error
    /// tells the limit and the size that was asked for.
    fn write(&mut self, buf: &[u8]) -> (r: Result<usize, WriteError>)
        ensures
            r matches Err(e) ==> {
                &&& *final(self) == *old(self)
                &&& e == old(self).refusal(old(self).taken() + buf@)
            },
    {
        let length = self.avcc_buffer.len();
        let additional_length = buf.len();
        let max: usize = if self.avcc_writer.length_size == 1 {
            0xff
        } else if self.avcc_writer.length_size == 2 {
            0xffff
        } else {
            0xffff_ffff
        };
        proof {
            assert(buf@.take(0) =~= Seq::<u8>::empty());
            assert(self.taken() + buf@.take(0) =~= self.taken());
            assert(buf@.take(buf@.len() as int) =~= buf@);
        }
        let (required, fits) = match length.checked_add(additional_length) {
            Some(sum) => (sum, sum <= max),
            None => (usize::MAX, false),
        };
        if !fits {
            Err(WriteError::NalUnitTooLarge(MaxNalUnitSizeExceededError { max, required }))
        } else {
            self.avcc_buffer.extend_from_slice(buf);
            assert(self.avcc_buffer@ =~= old(self).avcc_buffer@ + buf@);
            Ok(additional_length)
        }
    }
}

/// A NAL unit that has been started and waits for its header.
pub struct AVCCNalUnitWriter<W: ByteSink> {
    inner: NalUnitWriter<W>,
}

impl<W: ByteSink> AVCCNalUnitWriter<W> {
    /// The sink that the unit is gathered in.
    pub closed spec fn sink(&self) -> W {
        self.inner.sink()
    }
}

impl<W: ByteSink> NalUnitWrite<W> for AVCCNalUnitWriter<AVCCWriterBuffer<W>> {
    type Writer = AVCCRbspWriter<AVCCWriterBuffer<W>>;

    /// The unit is ready when its buffer is sound.
    open spec fn ready(&self) -> bool {
        self.sink().inv()
    }

    /// Writes the header byte and hands out the writer of the payload.
    fn write_nal_header(self, nal_header: NalHeader) -> (r: Result<
        AVCCRbspWriter<AVCCWriterBuffer<W>>,
        WriteError,
    >)
        ensures
            r is Ok <==> self.sink().holds(self.sink().taken().push(nal_header.byte())),
            r matches Ok(writer) ==> {
                &&& writer.inv()
                &&& writer.rbsp().base() == self.sink().taken().push(nal_header.byte())
                &&& writer.taken() == Seq::<u8>::empty()
                &&& writer.rbsp().sink().follows(&self.sink())
            },
            r matches Err(e) ==> e == self.sink().refusal(
                self.sink().taken().push(nal_header.byte()),
            ),
    {
        match self.inner.write_nal_header(nal_header) {
            Ok(inner) => Ok(AVCCRbspWriter { inner }),
            Err(e) => Err(e),
        }
    }
}

/// The payload of a NAL unit in a stream framed with length prefixes.
pub struct AVCCRbspWriter<W: ByteSink> {
    inner: RbspWriter<W>,
}

impl<W: ByteSink> AVCCRbspWriter<W> {
    /// The payload writer underneath.
    pub closed spec fn rbsp(&self) -> RbspWriter<W> {
        self.inner
    }
}

impl<W: ByteSink> AVCCRbspWriter<AVCCWriterBuffer<W>> {
    /// The unit as it will stand in the buffer once the payload has ended:
    /// what the buffer held when the payload began, then the escaped
    /// payload with the stop byte.
    pub open spec fn finished_body(&self) -> Seq<u8> {
        self.rbsp().base() + escape(self.taken().push(RBSP_STOP_BYTE))
    }
}

impl<W: ByteSink> RbspWrite<AVCCWriterBuffer<W>> for AVCCRbspWriter<AVCCWriterBuffer<W>> {
    type Writer = AVCCWriter<W>;

    /// Ends the payload with the stop byte and hands the unit to the sink,
    /// its length before it. Gives back the framing, ready for the next unit.
    fn finish_rbsp(self) -> (r: Result<AVCCWriter<W>, WriteError>)
        ensures
            ({
                let framing = self.rbsp().sink().writer();
                let unit = avcc_unit(framing.length_size(), self.finished_body());
                &&& r is Ok <==> self.holds(self.taken().push(RBSP_STOP_BYTE))
                    && framing.sink().holds(framing.sink().taken() + unit)
                &&& r matches Ok(writer) ==> writer.length_size() == framing.length_size()
                    && wrote_all(framing.sink(), writer.sink(), unit)
                &&& r matches Err(e) ==> if self.holds(self.taken().push(RBSP_STOP_BYTE)) {
                    refused(framing.sink(), unit, e)
                } else {
                    e == self.refusal(self.taken().push(RBSP_STOP_BYTE))
                }
            }),
    {
        match self.inner.finish_rbsp() {
            Ok(buffer) => buffer.finish(),
            Err(e) => Err(e),
        }
    }
}

impl<W: ByteSink> ByteSink for AVCCRbspWriter<W> {
    open spec fn inv(&self) -> bool {
        self.rbsp().inv()
    }

    /// The bytes written to the payload, as they were before escaping.
    open spec fn taken(&self) -> Seq<u8> {
        self.rbsp().taken()
    }

    open spec fn holds(&self, content: Seq<u8>) -> bool {
        self.rbsp().holds(content)
    }

    open spec fn refusal(&self, content: Seq<u8>) -> WriteError {
        self.rbsp().refusal(content)
    }

    open spec fn follows(&self, before: &Self) -> bool {
        self.rbsp().follows(&before.rbsp())
    }

    proof fn follows_itself(&self) {
        self.inner.follows_itself();
    }

    proof fn follows_on(&self, mid: &Self, before: &Self) {
        self.inner.follows_on(&mid.inner, &before.inner);
    }

    proof fn follows_holds(&self, before: &Self, content: Seq<u8>) {
        self.inner.follows_holds(&before.inner, content);
    }

    proof fn holds_taken(&self) {
        self.inner.holds_taken();
    }

    proof fn holds_prefix(&self, content: Seq<u8>, k: int) {
        self.inner.holds_prefix(content, k);
    }

    fn write(&mut self, buf: &[u8]) -> (r: Result<usize, WriteError>) {
        self.inner.write(buf)
    }
}

impl<W: ByteSink> WebvttWrite for AVCCRbspWriter<W> {
    fn write_webvtt_header(
        &mut self,
        max_latency_to_video: Duration,
        send_frequency_hz: u8,
        subtitle_tracks: &[WebvttTrack],
    ) -> (r: Result<(), WriteError>) {
        self.inner.write_webvtt_header(max_latency_to_video, send_frequency_hz, subtitle_tracks)
    }

    fn write_webvtt_payload(
        &mut self,
        track_index: u8,
        chunk_number: u64,
        chunk_version: u8,
        video_offset: Duration,
        webvtt_payload: &str,
    ) -> (r: Result<(), WriteError>) {
        self.inner.write_webvtt_payload(
            track_index,
            chunk_number,
            chunk_version,
            video_offset,
            webvtt_payload,
        )
    }
}

} // verus!
