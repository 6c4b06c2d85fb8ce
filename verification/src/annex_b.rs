//! Annex B framing: NAL units set apart by start codes.

use crate::nal::{H264ByteStreamWrite, NalHeader, NalUnitWrite, NalUnitWriter};
use crate::rbsp::{
    escape, lemma_escape_keeps_front, no_zero_pair, RbspWrite, RbspWriter, RBSP_STOP_BYTE,
};
use crate::sei::{
    ff_coded, lemma_ff_coded_len, lemma_ff_coded_shape, sei_header, sei_message,
    USER_DATA_UNREGISTERED,
};
use crate::sink::{
    lemma_write_nothing, lemma_write_step, lemma_write_then, refused, write_all, write_u8,
    ByteSink, WriteError,
};
use crate::time::Duration;
use crate::webvtt::{tagged, WebvttTrack, WebvttWrite};
use vstd::prelude::*;

verus! {

/// The bytes that announce a NAL unit: `00 00 01`, with one more zero byte
/// in front where nothing has been announced on the sink before.
pub open spec fn start_code(leading_zero_written: bool) -> Seq<u8> {
    if leading_zero_written {
        seq![0u8, 0u8, 1u8]
    } else {
        seq![0u8, 0u8, 0u8, 1u8]
    }
}

/// The GUID of a record shows in the stream as it is: where the payload of
/// a NAL unit begins with the message of a tagged record, the sixteen bytes
/// behind the start code, the header byte and the prefix of the message are
/// the GUID of the record, whatever follows the message.
pub proof fn lemma_guid_presence(
    leading_zero_written: bool,
    header: u8,
    record: Seq<u8>,
    rest: Seq<u8>,
)
    requires
        tagged(record),
    ensures
        ({
            let unit = start_code(leading_zero_written) + seq![header] + escape(
                sei_message(record) + rest,
            );
            let at = (start_code(leading_zero_written).len() + 1 + sei_header(
                USER_DATA_UNREGISTERED as nat,
                record.len(),
            ).len()) as int;
            &&& at + 16 <= unit.len()
            &&& unit.subrange(at, at + 16) == record.take(16)
        }),
{
    let kind = ff_coded(USER_DATA_UNREGISTERED as nat);
    let size = ff_coded(record.len());
    let prefix = sei_header(USER_DATA_UNREGISTERED as nat, record.len());
    let guid = record.take(16);
    let front = prefix + guid;
    let back = record.skip(16) + rest;
    lemma_ff_coded_shape(record.len());
    lemma_ff_coded_len(record.len());
    assert(kind =~= seq![5u8]);
    assert(prefix.len() == 1 + size.len());
    assert forall|i: int| 0 <= i && i + 1 < front.len() implies !(#[trigger] front[i] == 0
        && front[i + 1] == 0) by {
        if i == 0 {
            assert(front[0] == 5);
        } else if i < prefix.len() - 1 {
            assert(front[i] == size[i - 1]);
        } else if i == prefix.len() - 1 {
            assert(front[i + 1] == guid[0]);
        } else {
            assert(front[i] == guid[i - prefix.len()]);
        }
    }
    assert(sei_message(record) + rest =~= front + back);
    lemma_escape_keeps_front(front, back);
    let escaped = escape(front + back);
    let lead = start_code(leading_zero_written) + seq![header];
    let unit = lead + escaped;
    let at = (lead.len() + prefix.len()) as int;
    assert(unit.subrange(at, at + 16) =~= escaped.take(front.len() as int).skip(
        prefix.len() as int,
    ));
    assert(front.skip(prefix.len() as int) =~= guid);
}

/// A sink on which NAL units are framed with start codes.
pub struct AnnexBWriter<W: ByteSink> {
    leading_zero_8bits_written: bool,
    inner: W,
}

impl<W: ByteSink> AnnexBWriter<W> {
    /// The sink that the units go to.
    pub closed spec fn sink(&self) -> W {
        self.inner
    }

    /// Whether the leading zero byte of the stream has been written.
    pub closed spec fn leading_zero_written(&self) -> bool {
        self.leading_zero_8bits_written
    }

    /// Sets up the framing on `inner`, on which no unit has been started yet.
    pub fn new(inner: W) -> (writer: Self)
        ensures
            writer.sink() == inner,
            !writer.leading_zero_written(),
    {
        Self { leading_zero_8bits_written: false, inner }
    }

    /// Gives the sink back.
    pub fn into_inner(self) -> (inner: W)
        ensures
            inner == self.sink(),
    {
        self.inner
    }
}

impl<W: ByteSink> H264ByteStreamWrite<W> for AnnexBWriter<W> {
    type Writer = AnnexBNalUnitWriter<W>;

    /// The framing is ready when its sink is sound.
    open spec fn ready(&self) -> bool {
        self.sink().inv()
    }

    /// Starts a NAL unit: writes the start code, with the leading zero byte
    /// in front where this is the first unit.
    fn start_write_nal_unit(self) -> (r: Result<AnnexBNalUnitWriter<W>, WriteError>)
        ensures
            r is Ok <==> self.sink().holds(
                self.sink().taken() + start_code(self.leading_zero_written()),
            ),
            r matches Ok(writer) ==> {
                &&& writer.sink().inv()
                &&& writer.sink().taken() == self.sink().taken() + start_code(
                    self.leading_zero_written(),
                )
                &&& writer.sink().follows(&self.sink())
            },
            r matches Err(e) ==> refused(
                self.sink(),
                start_code(self.leading_zero_written()),
                e,
            ),
    {
        let ghost start = self.inner;
        let mut inner = self.inner;
        let ghost mut done: Seq<u8> = Seq::empty();
        proof {
            lemma_write_nothing(start);
        }
        if !self.leading_zero_8bits_written {
            let r = write_u8(&mut inner, 0);
            proof {
                lemma_write_step(
                    start,
                    start,
                    inner,
                    Seq::empty(),
                    seq![0u8],
                    seq![0u8, 0u8, 1u8],
                    r,
                );
                assert(Seq::<u8>::empty() + seq![0u8] + seq![0u8, 0u8, 1u8] =~= start_code(false));
                done = Seq::empty() + seq![0u8];
            }
            if let Err(e) = r {
                return Err(e);
            }
        }
        let ghost mid = inner;
        let code = [0u8, 0u8, 1u8];
        let r = write_all(&mut inner, code.as_slice());
        proof {
            assert(code@ =~= seq![0u8, 0u8, 1u8]);
            assert(done + code@ =~= start_code(self.leading_zero_written()));
            lemma_write_then(start, mid, inner, done, code@, r);
        }
        match r {
            Ok(()) => Ok(AnnexBNalUnitWriter { inner: NalUnitWriter::new(inner) }),
            Err(e) => Err(e),
        }
    }
}

/// A NAL unit that has been announced and waits for its header.
pub struct AnnexBNalUnitWriter<W: ByteSink> {
    inner: NalUnitWriter<W>,
}

impl<W: ByteSink> AnnexBNalUnitWriter<W> {
    /// The sink that the unit goes to.
    pub closed spec fn sink(&self) -> W {
        self.inner.sink()
    }
}

impl<W: ByteSink> NalUnitWrite<W> for AnnexBNalUnitWriter<W> {
    type Writer = AnnexBRbspWriter<W>;

    /// The unit is ready when its sink is sound.
    open spec fn ready(&self) -> bool {
        self.sink().inv()
    }

    /// Writes the header byte and hands out the writer of the payload.
    fn write_nal_header(self, nal_header: NalHeader) -> (r: Result<AnnexBRbspWriter<W>, WriteError>)
        ensures
            r is Ok <==> self.sink().holds(self.sink().taken().push(nal_header.byte())),
            r matches Ok(writer) ==> {
                &&& writer.inv()
                &&& writer.rbsp().base() == self.sink().taken().push(nal_header.byte())
                &&& writer.taken() == Seq::<u8>::empty()
                &&& writer.rbsp().sink().follows(&self.sink())
            },
            r matches Err(e) ==> e == self.sink().refusal(
                self.sink().taken().push(nal_header.byte()),
            ),
    {
        match self.inner.write_nal_header(nal_header) {
            Ok(inner) => Ok(AnnexBRbspWriter { inner }),
            Err(e) => Err(e),
        }
    }
}

/// The payload of a NAL unit in a stream framed with start codes.
pub struct AnnexBRbspWriter<W: ByteSink> {
    inner: RbspWriter<W>,
}

impl<W: ByteSink> AnnexBRbspWriter<W> {
    /// The payload writer underneath.
    pub closed spec fn rbsp(&self) -> RbspWriter<W> {
        self.inner
    }
}

impl<W: ByteSink> RbspWrite<W> for AnnexBRbspWriter<W> {
    type Writer = AnnexBWriter<W>;

    /// Ends the payload with the stop byte and hands back the framing, ready
    /// for the next unit, which will be announced without a leading zero byte.
    fn finish_rbsp(self) -> (r: Result<AnnexBWriter<W>, WriteError>)
        ensures
            r is Ok <==> self.holds(self.taken().push(RBSP_STOP_BYTE)),
            r matches Ok(writer) ==> {
                &&& writer.leading_zero_written()
                &&& writer.sink().inv()
                &&& writer.sink().taken() == self.rbsp().base() + escape(
                    self.taken().push(RBSP_STOP_BYTE),
                )
                &&& writer.sink().follows(&self.rbsp().sink())
            },
            r matches Err(e) ==> e == self.refusal(self.taken().push(RBSP_STOP_BYTE)),
    {
        match self.inner.finish_rbsp() {
            Ok(inner) => Ok(AnnexBWriter { leading_zero_8bits_written: true, inner }),
            Err(e) => Err(e),
        }
    }
}

impl<W: ByteSink> ByteSink for AnnexBRbspWriter<W> {
    open spec fn inv(&self) -> bool {
        self.rbsp().inv()
    }

    /// The bytes written to the payload, as they were before escaping.
    open spec fn taken(&self) -> Seq<u8> {
        self.rbsp().taken()
    }

    open spec fn holds(&self, content: Seq<u8>) -> bool {
        self.rbsp().holds(content)
    }

    open spec fn refusal(&self, content: Seq<u8>) -> WriteError {
        self.rbsp().refusal(content)
    }

    open spec fn follows(&self, before: &Self) -> bool {
        self.rbsp().follows(&before.rbsp())
    }

    proof fn follows_itself(&self) {
        self.inner.follows_itself();
    }

    proof fn follows_on(&self, mid: &Self, before: &Self) {
        self.inner.follows_on(&mid.inner, &before.inner);
    }

    proof fn follows_holds(&self, before: &Self, content: Seq<u8>) {
        self.inner.follows_holds(&before.inner, content);
    }

    proof fn holds_taken(&self) {
        self.inner.holds_taken();
    }

    proof fn holds_prefix(&self, content: Seq<u8>, k: int) {
        self.inner.holds_prefix(content, k);
    }

    fn write(&mut self, buf: &[u8]) -> (r: Result<usize, WriteError>) {
        self.inner.write(buf)
    }
}

impl<W: ByteSink> WebvttWrite for AnnexBRbspWriter<W> {
    fn write_webvtt_header(
        &mut self,
        max_latency_to_video: Duration,
        send_frequency_hz: u8,
        subtitle_tracks: &[WebvttTrack],
    ) -> (r: Result<(), WriteError>) {
        self.inner.write_webvtt_header(max_latency_to_video, send_frequency_hz, subtitle_tracks)
    }

    fn write_webvtt_payload(
        &mut self,
        track_index: u8,
        chunk_number: u64,
        chunk_version: u8,
        video_offset: Duration,
        webvtt_payload: &str,
    ) -> (r: Result<(), WriteError>) {
        self.inner.write_webvtt_payload(
            track_index,
            chunk_number,
            chunk_version,
            video_offset,
            webvtt_payload,
        )
    }
}

} // verus!
