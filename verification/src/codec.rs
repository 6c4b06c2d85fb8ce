//! Muxing into a buffer of its own, in the framing that a caller names by number.

use crate::annex_b::{start_code, AnnexBRbspWriter, AnnexBWriter};
use crate::avcc::{avcc_unit, max_nal_unit_size, AVCCRbspWriter, AVCCWriter, AVCCWriterBuffer};
use crate::endian::lemma_be_bytes_len;
use crate::muxer::{lead_of, mux_outcome, MuxerState, WebvttMuxer, MAX_CHUNKS};
use crate::nal::{
    header_byte, H264ByteStreamWrite, NalHeader, NalUnitWrite, UnitType, SEI_UNIT_TYPE_ID,
};
use crate::rbsp::{escape, RbspWrite, RBSP_STOP_BYTE};
use crate::sink::{ByteSink, WriteError};
use crate::time::Duration;
use vstd::prelude::*;

verus! {

/// The framings of a video stream, as callers number them.
#[derive(Clone, Copy, Debug)]
pub enum CodecFlavor {
    /// H.264 with length prefixes of one byte.
    H264Avcc1,
    /// H.264 with length prefixes of two bytes.
    H264Avcc2,
    /// H.264 with length prefixes of four bytes.
    H264Avcc4,
    /// H.264 with start codes.
    H264AnnexB,
}

/// The framings of H.264.
#[derive(Clone, Copy, Debug)]
pub enum CodecFlavorH264 {
    /// Length prefixes of this many bytes.
    Avcc(usize),
    /// Start codes.
    AnnexB,
}

/// The framings by codec.
#[derive(Clone, Copy, Debug)]
pub enum CodecFlavorInternal {
    H264(CodecFlavorH264),
}

impl CodecFlavor {
    /// The framing with the number `discriminant`, if there is one.
    pub open spec fn spec_from_repr(discriminant: u8) -> Option<CodecFlavor> {
        if discriminant == 0 {
            Some(CodecFlavor::H264Avcc1)
        } else if discriminant == 1 {
            Some(CodecFlavor::H264Avcc2)
        } else if discriminant == 2 {
            Some(CodecFlavor::H264Avcc4)
        } else if discriminant == 3 {
            Some(CodecFlavor::H264AnnexB)
        } else {
            None
        }
    }

    /// The framing by codec.
    pub open spec fn spec_into_internal(self) -> CodecFlavorInternal {
        match self {
            CodecFlavor::H264Avcc1 => CodecFlavorInternal::H264(CodecFlavorH264::Avcc(1)),
            CodecFlavor::H264Avcc2 => CodecFlavorInternal::H264(CodecFlavorH264::Avcc(2)),
            CodecFlavor::H264Avcc4 => CodecFlavorInternal::H264(CodecFlavorH264::Avcc(4)),
            CodecFlavor::H264AnnexB => CodecFlavorInternal::H264(CodecFlavorH264::AnnexB),
        }
    }

    /// The framing with the number `discriminant`, if there is one.
    #[verifier::when_used_as_spec(spec_from_repr)]
    pub fn from_repr(discriminant: u8) -> (flavor: Option<CodecFlavor>)
        ensures
            flavor == Self::spec_from_repr(discriminant),
    {
        if discriminant == 0 {
            Some(CodecFlavor::H264Avcc1)
        } else if discriminant == 1 {
            Some(CodecFlavor::H264Avcc2)
        } else if discriminant == 2 {
            Some(CodecFlavor::H264Avcc4)
        } else if discriminant == 3 {
            Some(CodecFlavor::H264AnnexB)
        } else {
            None
        }
    }

    /// The framing by codec.
    #[verifier::when_used_as_spec(spec_into_internal)]
    pub fn into_internal(self) -> (internal: CodecFlavorInternal)
        ensures
            internal == self.spec_into_internal(),
    {
        match self {
            CodecFlavor::H264Avcc1 => CodecFlavorInternal::H264(CodecFlavorH264::Avcc(1)),
            CodecFlavor::H264Avcc2 => CodecFlavorInternal::H264(CodecFlavorH264::Avcc(2)),
            CodecFlavor::H264Avcc4 => CodecFlavorInternal::H264(CodecFlavorH264::Avcc(4)),
            CodecFlavor::H264AnnexB => CodecFlavorInternal::H264(CodecFlavorH264::AnnexB),
        }
    }
}

/// The bytes of one NAL unit, framed and ready to be handed on.
pub struct WebvttBuffer(Vec<u8>);

impl View for WebvttBuffer {
    type V = Seq<u8>;

    closed spec fn view(&self) -> Seq<u8> {
        self.0@
    }
}

impl WebvttBuffer {
    /// The bytes of the buffer.
    pub fn data(&self) -> (bytes: &[u8])
        ensures
            bytes@ == self@,
    {
        self.0.as_slice()
    }

    /// The number of bytes in the buffer.
    pub fn length(&self) -> (len: usize)
        ensures
            len == self@.len(),
    {
        self.0.len()
    }
}

/// The header byte of the NAL unit that carries the messages: supplemental
/// enhancement information, never referenced.
pub open spec fn sei_header_byte() -> u8 {
    header_byte(SEI_UNIT_TYPE_ID, 0)
}

/// What a call with start codes made of the muxer and handed back.
///
/// A NAL unit is begun in an empty buffer, with the leading zero byte, the
/// start code and the header byte, and the muxer is run on its payload as
/// [`mux_outcome`] tells. Where the muxer answers `true`, the payload is
/// ended and the buffer comes back; else nothing comes back.
pub open spec fn annex_b_muxed(
    before: MuxerState,
    after: MuxerState,
    video_timestamp: nat,
    add_header: bool,
    r: Option<Seq<u8>>,
) -> bool {
    exists|
        start: AnnexBRbspWriter<Vec<u8>>,
        end: AnnexBRbspWriter<Vec<u8>>,
        outcome: Result<bool, WriteError>,
    |
        {
            &&& start.inv()
            &&& start.taken() == Seq::<u8>::empty()
            &&& start.rbsp().base() == start_code(false).push(sei_header_byte())
            &&& #[trigger] mux_outcome(
                before,
                after,
                start,
                end,
                video_timestamp,
                add_header,
                outcome,
            )
            &&& r == if outcome == Ok::<bool, WriteError>(true) {
                Some(start.rbsp().base() + escape(end.taken().push(RBSP_STOP_BYTE)))
            } else {
                None
            }
        }
}

/// What a call with length prefixes of `length_size` bytes made of the
/// muxer and handed back.
///
/// A NAL unit is begun in a buffer of its own with the header byte, and the
/// muxer is run on its payload as [`mux_outcome`] tells. Where the muxer
/// answers `true` and the unit with its stop byte is no larger than the
/// length prefix can tell, the unit comes back with its length before it;
/// else nothing comes back.
pub open spec fn avcc_muxed(
    length_size: usize,
    before: MuxerState,
    after: MuxerState,
    video_timestamp: nat,
    add_header: bool,
    r: Option<Seq<u8>>,
) -> bool {
    exists|
        start: AVCCRbspWriter<AVCCWriterBuffer<Vec<u8>>>,
        end: AVCCRbspWriter<AVCCWriterBuffer<Vec<u8>>>,
        outcome: Result<bool, WriteError>,
    |
        {
            &&& start.inv()
            &&& start.taken() == Seq::<u8>::empty()
            &&& start.rbsp().base() == seq![sei_header_byte()]
            &&& start.rbsp().sink().writer().length_size() == length_size
            &&& #[trigger] mux_outcome(
                before,
                after,
                start,
                end,
                video_timestamp,
                add_header,
                outcome,
            )
            &&& r == if outcome == Ok::<bool, WriteError>(true) && end.finished_body().len()
                <= max_nal_unit_size(length_size) {
                Some(avcc_unit(length_size, end.finished_body()))
            } else {
                None
            }
        }
}

/// The messages that a call writes when all of them go through: the header
/// message where it is asked for, and the next chunk of every track where
/// the chunk is due.
pub open spec fn sent(before: MuxerState, video_timestamp: nat, add_header: bool) -> Seq<u8> {
    if before.chunk_due(video_timestamp) {
        lead_of(before, add_header) + before.latched(video_timestamp).payloads(
            before.tracks.len(),
            video_timestamp,
        )
    } else {
        lead_of(before, add_header)
    }
}

/// A buffer that comes back from a call with start codes is one NAL unit:
/// the leading zero byte and the start code, the header byte of
/// supplemental enhancement information, and the escaped messages of the
/// call with the stop byte. Where a chunk was due, the chunk number has
/// gone up by one; else it is as before.
pub proof fn lemma_annex_b_buffer(
    before: MuxerState,
    after: MuxerState,
    video_timestamp: nat,
    add_header: bool,
    bytes: Seq<u8>,
)
    requires
        before.valid(),
        annex_b_muxed(before, after, video_timestamp, add_header, Some(bytes)),
    ensures
        bytes == start_code(false).push(sei_header_byte()) + escape(
            sent(before, video_timestamp, add_header).push(RBSP_STOP_BYTE),
        ),
        before.next_chunk_number < MAX_CHUNKS,
        after.next_chunk_number == if before.chunk_due(video_timestamp) {
            before.next_chunk_number + 1
        } else {
            before.next_chunk_number as int
        },
{
    let (start, end, outcome) = choose|
        start: AnnexBRbspWriter<Vec<u8>>,
        end: AnnexBRbspWriter<Vec<u8>>,
        outcome: Result<bool, WriteError>,
    |
        {
            &&& start.inv()
            &&& start.taken() == Seq::<u8>::empty()
            &&& start.rbsp().base() == start_code(false).push(sei_header_byte())
            &&& #[trigger] mux_outcome(
                before,
                after,
                start,
                end,
                video_timestamp,
                add_header,
                outcome,
            )
            &&& Some(bytes) == if outcome == Ok::<bool, WriteError>(true) {
                Some(start.rbsp().base() + escape(end.taken().push(RBSP_STOP_BYTE)))
            } else {
                None
            }
        };
    assert(outcome == Ok::<bool, WriteError>(true));
    assert(end.taken() =~= sent(before, video_timestamp, add_header));
}

/// A buffer that comes back from a call with length prefixes is one NAL
/// unit with its length before it: the unit is the header byte of
/// supplemental enhancement information and the escaped messages of the
/// call with the stop byte.
pub proof fn lemma_avcc_buffer(
    length_size: usize,
    before: MuxerState,
    after: MuxerState,
    video_timestamp: nat,
    add_header: bool,
    bytes: Seq<u8>,
)
    requires
        before.valid(),
        avcc_muxed(length_size, before, after, video_timestamp, add_header, Some(bytes)),
    ensures
        bytes == avcc_unit(
            length_size,
            seq![sei_header_byte()] + escape(
                sent(before, video_timestamp, add_header).push(RBSP_STOP_BYTE),
            ),
        ),
        bytes.len() <= length_size + max_nal_unit_size(length_size),
{
    let (start, end, outcome) = choose|
        start: AVCCRbspWriter<AVCCWriterBuffer<Vec<u8>>>,
        end: AVCCRbspWriter<AVCCWriterBuffer<Vec<u8>>>,
        outcome: Result<bool, WriteError>,
    |
        {
            &&& start.inv()
            &&& start.taken() == Seq::<u8>::empty()
            &&& start.rbsp().base() == seq![sei_header_byte()]
            &&& start.rbsp().sink().writer().length_size() == length_size
            &&& #[trigger] mux_outcome(
                before,
                after,
                start,
                end,
                video_timestamp,
                add_header,
                outcome,
            )
            &&& Some(bytes) == if outcome == Ok::<bool, WriteError>(true)
                && end.finished_body().len() <= max_nal_unit_size(length_size) {
                Some(avcc_unit(length_size, end.finished_body()))
            } else {
                None
            }
        };
    assert(outcome == Ok::<bool, WriteError>(true));
    assert(end.taken() =~= sent(before, video_timestamp, add_header));
    lemma_be_bytes_len(end.finished_body().len(), length_size as nat);
}

/// What a call of [`mux_into_buffer`] made of the muxer and handed back.
pub open spec fn muxed(
    codec_flavor: u8,
    before: MuxerState,
    after: MuxerState,
    video_timestamp: nat,
    add_header: bool,
    r: Option<Seq<u8>>,
) -> bool {
    match CodecFlavor::spec_from_repr(codec_flavor) {
        None => r is None && after == before,
        Some(flavor) => match flavor.spec_into_internal() {
            CodecFlavorInternal::H264(CodecFlavorH264::AnnexB) => annex_b_muxed(
                before,
                after,
                video_timestamp,
                add_header,
                r,
            ),
            CodecFlavorInternal::H264(CodecFlavorH264::Avcc(length_size)) => avcc_muxed(
                length_size,
                before,
                after,
                video_timestamp,
                add_header,
                r,
            ),
        },
    }
}

/// The views of an optional buffer.
pub open spec fn buffer_view(buffer: Option<WebvttBuffer>) -> Option<Seq<u8>> {
    match buffer {
        Some(buffer) => Some(buffer@),
        None => None,
    }
}

/// The header of the NAL unit that carries the messages.
fn create_nal_header() -> (r: Option<NalHeader>)
    ensures
        r matches Some(header) && header.byte() == sei_header_byte(),
{
    match NalHeader::from_nal_unit_type_and_nal_ref_idc(UnitType::sei(), 0) {
        Ok(header) => Some(header),
        Err(_) => None,
    }
}

/// Runs the muxer on a NAL unit framed with start codes, in a buffer of its own.
fn mux_annex_b(muxer: &mut WebvttMuxer, video_timestamp: Duration, add_header: bool) -> (r: Option<
    WebvttBuffer,
>)
    requires
        old(muxer).wf(),
    ensures
        final(muxer).wf(),
        annex_b_muxed(old(muxer)@, final(muxer)@, video_timestamp@, add_header, buffer_view(r)),
{
    let nal_header = match create_nal_header() {
        Some(nal_header) => nal_header,
        None => {
            return None;
        },
    };
    let unit = match AnnexBWriter::new(Vec::new()).start_write_nal_unit() {
        Ok(unit) => unit,
        Err(_) => {
            return None;
        },
    };
    assert(unit.sink().taken() =~= start_code(false));
    let mut writer = match unit.write_nal_header(nal_header) {
        Ok(writer) => writer,
        Err(_) => {
            return None;
        },
    };
    let ghost start = writer;
    let outcome = muxer.try_mux_into_bytestream(video_timestamp, add_header, &mut writer);
    let ghost end = writer;
    let r = match outcome {
        Ok(true) => match writer.finish_rbsp() {
            Ok(framing) => Some(WebvttBuffer(framing.into_inner())),
            Err(_) => None,
        },
        _ => None,
    };
    proof {
        if outcome == Ok::<bool, WriteError>(true) {
            lemma_sent_follows(old(muxer)@, muxer@, start, end, video_timestamp@, add_header);
        }
        assert(mux_outcome(
            old(muxer)@,
            muxer@,
            start,
            end,
            video_timestamp@,
            add_header,
            outcome,
        ));
    }
    r
}

/// A call that answers `true` leaves a writer that is sound and follows the
/// writer it was given.
pub proof fn lemma_sent_follows<W: ByteSink>(
    before: MuxerState,
    after: MuxerState,
    start: W,
    end: W,
    video_timestamp: nat,
    add_header: bool,
)
    requires
        mux_outcome(
            before,
            after,
            start,
            end,
            video_timestamp,
            add_header,
            Ok::<bool, WriteError>(true),
        ),
    ensures
        end.inv(),
        end.follows(&start),
{
}

/// Runs the muxer on a NAL unit framed with a length prefix of
/// `length_size` bytes, in a buffer of its own.
fn mux_avcc(
    muxer: &mut WebvttMuxer,
    video_timestamp: Duration,
    add_header: bool,
    length_size: usize,
) -> (r: Option<WebvttBuffer>)
    requires
        old(muxer).wf(),
        length_size == 1 || length_size == 2 || length_size == 4,
    ensures
        final(muxer).wf(),
        avcc_muxed(
            length_size,
            old(muxer)@,
            final(muxer)@,
            video_timestamp@,
            add_header,
            buffer_view(r),
        ),
{
    let nal_header = match create_nal_header() {
        Some(nal_header) => nal_header,
        None => {
            return None;
        },
    };
    let framing = match AVCCWriter::new(length_size, Vec::new()) {
        Ok(framing) => framing,
        Err(_) => {
            return None;
        },
    };
    let unit = match framing.start_write_nal_unit() {
        Ok(unit) => unit,
        Err(_) => {
            return None;
        },
    };
    assert(unit.sink().taken().push(nal_header.byte()) =~= seq![sei_header_byte()]);
    let mut writer = match unit.write_nal_header(nal_header) {
        Ok(writer) => writer,
        Err(_) => {
            return None;
        },
    };
    let ghost start = writer;
    let outcome = muxer.try_mux_into_bytestream(video_timestamp, add_header, &mut writer);
    let ghost end = writer;
    proof {
        if outcome == Ok::<bool, WriteError>(true) {
            lemma_sent_follows(old(muxer)@, muxer@, start, end, video_timestamp@, add_header);
        }
    }
    let r = match outcome {
        Ok(true) => match writer.finish_rbsp() {
            Ok(framing) => {
                let bytes = framing.into_inner();
                assert(bytes@ =~= avcc_unit(length_size, end.finished_body()));
                Some(WebvttBuffer(bytes))
            },
            Err(_) => None,
        },
        _ => None,
    };
    proof {
        assert(mux_outcome(
            old(muxer)@,
            muxer@,
            start,
            end,
            video_timestamp@,
            add_header,
            outcome,
        ));
    }
    r
}

/// Sends what is due at `video_timestamp` into a buffer of its own, as one
/// NAL unit of supplemental enhancement information in the framing with the
/// number `codec_flavor`.
///
/// Nothing comes back where there is no framing with that number, where the
/// muxer wrote nothing, and where anything failed.
pub fn mux_into_buffer(
    muxer: &mut WebvttMuxer,
    video_timestamp: Duration,
    add_header: bool,
    codec_flavor: u8,
) -> (r: Option<WebvttBuffer>)
    requires
        old(muxer).wf(),
    ensures
        final(muxer).wf(),
        muxed(
            codec_flavor,
            old(muxer)@,
            final(muxer)@,
            video_timestamp@,
            add_header,
            buffer_view(r),
        ),
{
    let codec_flavor = match CodecFlavor::from_repr(codec_flavor) {
        Some(codec_flavor) => codec_flavor,
        None => {
            return None;
        },
    };
    match codec_flavor.into_internal() {
        CodecFlavorInternal::H264(CodecFlavorH264::AnnexB) => mux_annex_b(
            muxer,
            video_timestamp,
            add_header,
        ),
        CodecFlavorInternal::H264(CodecFlavorH264::Avcc(length_size)) => mux_avcc(
            muxer,
            video_timestamp,
            add_header,
            length_size,
        ),
    }
}

} // verus!
