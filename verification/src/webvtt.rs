//! The records that carry WebVTT inside SEI messages.
//!
//! There are two kinds of record, each tagged with a GUID of its own: the
//! header record lists the subtitle tracks, and the payload record carries
//! one chunk of WebVTT text for one track. A record is first measured, then
//! written behind the SEI prefix that tells its size.

use crate::endian::{be_bytes, lemma_be_bytes_len, u16_be_bytes, u64_be_bytes, uuid_bytes};
use crate::rbsp::RbspWriter;
use crate::sei::{sei_header, sei_message, write_sei_header, USER_DATA_UNREGISTERED};
use crate::sink::{
    lemma_write_done, lemma_write_failed, lemma_write_nothing, lemma_write_step, lemma_write_then,
    write_all, write_outcome, write_u8, wrote_all, ByteSink, CountingSink, WriteError,
};
use crate::time::Duration;
use vstd::prelude::*;
use vstd::utf8::encode_utf8;

verus! {

/// The GUID that tags a header record, as a 128-bit number.
pub const HEADER_GUID: u128 = 0xcc7124bd_5f1c_4592_b27a_e2d9d218ef9e;

/// The GUID that tags a payload record, as a 128-bit number.
pub const PAYLOAD_GUID: u128 = 0xa0cb4dd1_9db2_4635_a76b_1c9fefd6c37b;

/// The bytes of the GUID that tags a header record.
pub open spec fn header_guid_bytes() -> Seq<u8> {
    seq![
        0xccu8, 0x71u8, 0x24u8, 0xbdu8, 0x5fu8, 0x1cu8, 0x45u8, 0x92u8, 0xb2u8, 0x7au8, 0xe2u8,
        0xd9u8, 0xd2u8, 0x18u8, 0xefu8, 0x9eu8,
    ]
}

/// The bytes of the GUID that tags a payload record.
pub open spec fn payload_guid_bytes() -> Seq<u8> {
    seq![
        0xa0u8, 0xcbu8, 0x4du8, 0xd1u8, 0x9du8, 0xb2u8, 0x46u8, 0x35u8, 0xa7u8, 0x6bu8, 0x1cu8,
        0x9fu8, 0xefu8, 0xd6u8, 0xc3u8, 0x7bu8,
    ]
}

/// A layout grows by one byte at its end when the number grows by one
/// byte at its low end.
proof fn lemma_be_bytes_push(value: nat, width: nat, high: nat, low: u8, bytes: Seq<u8>)
    requires
        width > 0,
        value == high * 256 + low,
        be_bytes(high, (width - 1) as nat) == bytes,
    ensures
        be_bytes(value, width) == bytes.push(low),
{
}

/// The GUID of the header record, laid out most significant byte first,
/// is the bytes given above.
pub proof fn lemma_header_guid_bytes()
    ensures
        be_bytes(HEADER_GUID as nat, 16) == header_guid_bytes(),
{
    let mut bytes: Seq<u8> = Seq::empty();
    let mut high: nat = 0;
    lemma_be_bytes_push(0xcc, 1, high, 0xccu8, bytes);
    bytes = bytes.push(0xccu8);
    high = 0xcc;
    lemma_be_bytes_push(0xcc71, 2, high, 0x71u8, bytes);
    bytes = bytes.push(0x71u8);
    high = 0xcc71;
    lemma_be_bytes_push(0xcc7124, 3, high, 0x24u8, bytes);
    bytes = bytes.push(0x24u8);
    high = 0xcc7124;
    lemma_be_bytes_push(0xcc7124bd, 4, high, 0xbdu8, bytes);
    bytes = bytes.push(0xbdu8);
    high = 0xcc7124bd;
    lemma_be_bytes_push(0xcc7124bd5f, 5, high, 0x5fu8, bytes);
    bytes = bytes.push(0x5fu8);
    high = 0xcc7124bd5f;
    lemma_be_bytes_push(0xcc7124bd5f1c, 6, high, 0x1cu8, bytes);
    bytes = bytes.push(0x1cu8);
    high = 0xcc7124bd5f1c;
    lemma_be_bytes_push(0xcc7124bd5f1c45, 7, high, 0x45u8, bytes);
    bytes = bytes.push(0x45u8);
    high = 0xcc7124bd5f1c45;
    lemma_be_bytes_push(0xcc7124bd5f1c4592, 8, high, 0x92u8, bytes);
    bytes = bytes.push(0x92u8);
    high = 0xcc7124bd5f1c4592;
    lemma_be_bytes_push(0xcc7124bd5f1c4592b2, 9, high, 0xb2u8, bytes);
    bytes = bytes.push(0xb2u8);
    high = 0xcc7124bd5f1c4592b2;
    lemma_be_bytes_push(0xcc7124bd5f1c4592b27a, 10, high, 0x7au8, bytes);
    bytes = bytes.push(0x7au8);
    high = 0xcc7124bd5f1c4592b27a;
    lemma_be_bytes_push(0xcc7124bd5f1c4592b27ae2, 11, high, 0xe2u8, bytes);
    bytes = bytes.push(0xe2u8);
    high = 0xcc7124bd5f1c4592b27ae2;
    lemma_be_bytes_push(0xcc7124bd5f1c4592b27ae2d9, 12, high, 0xd9u8, bytes);
    bytes = bytes.push(0xd9u8);
    high = 0xcc7124bd5f1c4592b27ae2d9;
    lemma_be_bytes_push(0xcc7124bd5f1c4592b27ae2d9d2, 13, high, 0xd2u8, bytes);
    bytes = bytes.push(0xd2u8);
    high = 0xcc7124bd5f1c4592b27ae2d9d2;
    lemma_be_bytes_push(0xcc7124bd5f1c4592b27ae2d9d218, 14, high, 0x18u8, bytes);
    bytes = bytes.push(0x18u8);
    high = 0xcc7124bd5f1c4592b27ae2d9d218;
    lemma_be_bytes_push(0xcc7124bd5f1c4592b27ae2d9d218ef, 15, high, 0xefu8, bytes);
    bytes = bytes.push(0xefu8);
    high = 0xcc7124bd5f1c4592b27ae2d9d218ef;
    lemma_be_bytes_push(0xcc7124bd5f1c4592b27ae2d9d218ef9e, 16, high, 0x9eu8, bytes);
    bytes = bytes.push(0x9eu8);
    high = 0xcc7124bd5f1c4592b27ae2d9d218ef9e;
    assert(bytes =~= header_guid_bytes());
}

/// The GUID of the payload record, laid out most significant byte first,
/// is the bytes given above.
pub proof fn lemma_payload_guid_bytes()
    ensures
        be_bytes(PAYLOAD_GUID as nat, 16) == payload_guid_bytes(),
{
    let mut bytes: Seq<u8> = Seq::empty();
    let mut high: nat = 0;
    lemma_be_bytes_push(0xa0, 1, high, 0xa0u8, bytes);
    bytes = bytes.push(0xa0u8);
    high = 0xa0;
    lemma_be_bytes_push(0xa0cb, 2, high, 0xcbu8, bytes);
    bytes = bytes.push(0xcbu8);
    high = 0xa0cb;
    lemma_be_bytes_push(0xa0cb4d, 3, high, 0x4du8, bytes);
    bytes = bytes.push(0x4du8);
    high = 0xa0cb4d;
    lemma_be_bytes_push(0xa0cb4dd1, 4, high, 0xd1u8, bytes);
    bytes = bytes.push(0xd1u8);
    high = 0xa0cb4dd1;
    lemma_be_bytes_push(0xa0cb4dd19d, 5, high, 0x9du8, bytes);
    bytes = bytes.push(0x9du8);
    high = 0xa0cb4dd19d;
    lemma_be_bytes_push(0xa0cb4dd19db2, 6, high, 0xb2u8, bytes);
    bytes = bytes.push(0xb2u8);
    high = 0xa0cb4dd19db2;
    lemma_be_bytes_push(0xa0cb4dd19db246, 7, high, 0x46u8, bytes);
    bytes = bytes.push(0x46u8);
    high = 0xa0cb4dd19db246;
    lemma_be_bytes_push(0xa0cb4dd19db24635, 8, high, 0x35u8, bytes);
    bytes = bytes.push(0x35u8);
    high = 0xa0cb4dd19db24635;
    lemma_be_bytes_push(0xa0cb4dd19db24635a7, 9, high, 0xa7u8, bytes);
    bytes = bytes.push(0xa7u8);
    high = 0xa0cb4dd19db24635a7;
    lemma_be_bytes_push(0xa0cb4dd19db24635a76b, 10, high, 0x6bu8, bytes);
    bytes = bytes.push(0x6bu8);
    high = 0xa0cb4dd19db24635a76b;
    lemma_be_bytes_push(0xa0cb4dd19db24635a76b1c, 11, high, 0x1cu8, bytes);
    bytes = bytes.push(0x1cu8);
    high = 0xa0cb4dd19db24635a76b1c;
    lemma_be_bytes_push(0xa0cb4dd19db24635a76b1c9f, 12, high, 0x9fu8, bytes);
    bytes = bytes.push(0x9fu8);
    high = 0xa0cb4dd19db24635a76b1c9f;
    lemma_be_bytes_push(0xa0cb4dd19db24635a76b1c9fef, 13, high, 0xefu8, bytes);
    bytes = bytes.push(0xefu8);
    high = 0xa0cb4dd19db24635a76b1c9fef;
    lemma_be_bytes_push(0xa0cb4dd19db24635a76b1c9fefd6, 14, high, 0xd6u8, bytes);
    bytes = bytes.push(0xd6u8);
    high = 0xa0cb4dd19db24635a76b1c9fefd6;
    lemma_be_bytes_push(0xa0cb4dd19db24635a76b1c9fefd6c3, 15, high, 0xc3u8, bytes);
    bytes = bytes.push(0xc3u8);
    high = 0xa0cb4dd19db24635a76b1c9fefd6c3;
    lemma_be_bytes_push(0xa0cb4dd19db24635a76b1c9fefd6c37b, 16, high, 0x7bu8, bytes);
    bytes = bytes.push(0x7bu8);
    high = 0xa0cb4dd19db24635a76b1c9fefd6c37b;
    assert(bytes =~= payload_guid_bytes());
}

/// Whether `record` begins with the GUID of a header record or of a payload record.
pub open spec fn tagged(record: Seq<u8>) -> bool {
    record.len() >= 16 && (record.take(16) == header_guid_bytes() || record.take(16)
        == payload_guid_bytes())
}

/// A subtitle track as the header record describes it.
pub struct WebvttTrack<'a> {
    pub default: bool,
    pub autoselect: bool,
    pub forced: bool,
    pub name: &'a str,
    pub language: &'a str,
    pub assoc_language: Option<&'a str>,
    pub characteristics: Option<&'a str>,
}

/// What a track description says, with its strings as sequences of characters.
pub struct TrackInfo {
    pub default: bool,
    pub autoselect: bool,
    pub forced: bool,
    pub name: Seq<char>,
    pub language: Seq<char>,
    pub assoc_language: Option<Seq<char>>,
    pub characteristics: Option<Seq<char>>,
}

impl<'a> View for WebvttTrack<'a> {
    type V = TrackInfo;

    open spec fn view(&self) -> TrackInfo {
        TrackInfo {
            default: self.default,
            autoselect: self.autoselect,
            forced: self.forced,
            name: self.name@,
            language: self.language@,
            assoc_language: match self.assoc_language {
                Some(s) => Some(s@),
                None => None,
            },
            characteristics: match self.characteristics {
                Some(s) => Some(s@),
                None => None,
            },
        }
    }
}

/// The views of the tracks in `tracks`, in the same order.
pub open spec fn track_infos(tracks: Seq<WebvttTrack<'_>>) -> Seq<TrackInfo> {
    Seq::new(tracks.len(), |i: int| tracks[i]@)
}

/// `text` in UTF-8, closed by a NUL byte.
pub open spec fn c_str(text: Seq<char>) -> Seq<u8> {
    encode_utf8(text) + seq![0u8]
}

/// `bit` where `flag` is set, else no bit.
pub open spec fn flag_bit(flag: bool, bit: u8) -> u8 {
    if flag {
        bit
    } else {
        0
    }
}

/// The flag byte of a track: bit 7 default, bit 6 autoselect, bit 5 forced,
/// bit 4 an associated language follows, bit 3 characteristics follow.
pub open spec fn track_flags(track: TrackInfo) -> u8 {
    flag_bit(track.default, 0x80) | flag_bit(track.autoselect, 0x40) | flag_bit(track.forced, 0x20)
        | flag_bit(track.assoc_language is Some, 0x10) | flag_bit(
        track.characteristics is Some,
        0x08,
    )
}

/// `text` as a NUL-terminated string where there is one, else nothing.
pub open spec fn optional_c_str(text: Option<Seq<char>>) -> Seq<u8> {
    match text {
        Some(text) => c_str(text),
        None => Seq::empty(),
    }
}

/// The block that describes one track in the header record.
pub open spec fn track_block(track: TrackInfo) -> Seq<u8> {
    seq![track_flags(track)] + c_str(track.name) + c_str(track.language) + optional_c_str(
        track.assoc_language,
    ) + optional_c_str(track.characteristics)
}

/// The blocks of all of `tracks`, one after the other.
pub open spec fn track_blocks(tracks: Seq<TrackInfo>) -> Seq<u8>
    decreases tracks.len(),
{
    if tracks.len() == 0 {
        Seq::empty()
    } else {
        track_blocks(tracks.drop_last()) + track_block(tracks.last())
    }
}

/// The header record: GUID, latency in milliseconds, send frequency,
/// number of tracks, and the track blocks.
pub open spec fn header_record(latency_millis: nat, send_frequency_hz: u8, tracks: Seq<TrackInfo>) -> Seq<u8> {
    be_bytes(HEADER_GUID as nat, 16) + be_bytes(latency_millis, 2) + seq![send_frequency_hz]
        + seq![tracks.len() as u8] + track_blocks(tracks)
}

/// The payload record: GUID, track index, chunk number, chunk version,
/// offset to the video in milliseconds, and the text as a NUL-terminated string.
pub open spec fn payload_record(
    track_index: u8,
    chunk_number: u64,
    chunk_version: u8,
    video_offset_millis: nat,
    text: Seq<char>,
) -> Seq<u8> {
    be_bytes(PAYLOAD_GUID as nat, 16) + seq![track_index] + be_bytes(chunk_number as nat, 8)
        + seq![chunk_version] + be_bytes(video_offset_millis, 2) + c_str(text)
}

/// Every header record begins with the GUID of header records, and every
/// payload record with the GUID of payload records.
pub proof fn lemma_records_tagged(
    latency_millis: nat,
    send_frequency_hz: u8,
    tracks: Seq<TrackInfo>,
    track_index: u8,
    chunk_number: u64,
    chunk_version: u8,
    video_offset_millis: nat,
    text: Seq<char>,
)
    ensures
        tagged(header_record(latency_millis, send_frequency_hz, tracks)),
        header_record(latency_millis, send_frequency_hz, tracks).take(16) == header_guid_bytes(),
        tagged(
            payload_record(track_index, chunk_number, chunk_version, video_offset_millis, text),
        ),
        payload_record(track_index, chunk_number, chunk_version, video_offset_millis, text).take(
            16,
        ) == payload_guid_bytes(),
{
    lemma_header_guid_bytes();
    lemma_payload_guid_bytes();
    let header = header_record(latency_millis, send_frequency_hz, tracks);
    assert(header.take(16) =~= be_bytes(HEADER_GUID as nat, 16));
    let payload = payload_record(
        track_index,
        chunk_number,
        chunk_version,
        video_offset_millis,
        text,
    );
    assert(payload.take(16) =~= be_bytes(PAYLOAD_GUID as nat, 16));
}

/// A header record has twenty bytes and the blocks of its tracks; a payload
/// record has twenty-nine bytes and its text.
pub proof fn lemma_record_lengths(
    latency_millis: nat,
    send_frequency_hz: u8,
    tracks: Seq<TrackInfo>,
    track_index: u8,
    chunk_number: u64,
    chunk_version: u8,
    video_offset_millis: nat,
    text: Seq<char>,
)
    ensures
        header_record(latency_millis, send_frequency_hz, tracks).len() == 20 + track_blocks(
            tracks,
        ).len(),
        payload_record(track_index, chunk_number, chunk_version, video_offset_millis, text).len()
            == 29 + encode_utf8(text).len(),
{
    lemma_be_bytes_len(HEADER_GUID as nat, 16);
    lemma_be_bytes_len(PAYLOAD_GUID as nat, 16);
    lemma_be_bytes_len(latency_millis, 2);
    lemma_be_bytes_len(chunk_number as nat, 8);
    lemma_be_bytes_len(video_offset_millis, 2);
}

/// Whether `record` can be sent: its length must stay below `usize::MAX`,
/// the point at which the measuring stops.
pub open spec fn measurable(record: Seq<u8>) -> bool {
    record.len() < usize::MAX
}

/// The SEI message that announces the tracks, or `None` where a value does
/// not fit its field: the latency, given in nanoseconds, must stay below
/// 65 536 milliseconds, there must be at most 255 tracks, and the record
/// must be measurable.
pub open spec fn header_message(
    latency_nanos: nat,
    send_frequency_hz: u8,
    tracks: Seq<TrackInfo>,
) -> Option<Seq<u8>> {
    let millis = latency_nanos / 1_000_000;
    let record = header_record(millis, send_frequency_hz, tracks);
    if millis <= 0xffff && tracks.len() <= 0xff && measurable(record) {
        Some(sei_message(record))
    } else {
        None
    }
}

/// The SEI message that carries one chunk of text, or `None` where a value
/// does not fit its field: the offset, given in nanoseconds, must stay below
/// 65 536 milliseconds and the record must be measurable.
pub open spec fn payload_message(
    track_index: u8,
    chunk_number: u64,
    chunk_version: u8,
    video_offset_nanos: nat,
    text: Seq<char>,
) -> Option<Seq<u8>> {
    let millis = video_offset_nanos / 1_000_000;
    let record = payload_record(track_index, chunk_number, chunk_version, millis, text);
    if millis <= 0xffff && measurable(record) {
        Some(sei_message(record))
    } else {
        None
    }
}

/// How writing a message went that may not exist: where there is none, the
/// answer is a numeric overflow and the writer is untouched; where there is
/// one, it was written whole exactly when the writer holds it, and else the
/// answer is the refusal of the writer.
pub open spec fn message_outcome<W: ByteSink>(
    before: W,
    after: W,
    message: Option<Seq<u8>>,
    r: Result<(), WriteError>,
) -> bool {
    match message {
        None => r == Err::<(), WriteError>(WriteError::NumericOverflow) && after == before,
        Some(message) => write_outcome(before, after, message, r),
    }
}

/// Writes `text` in UTF-8 and a NUL byte behind it.
fn write_c_str<W: ByteSink>(writer: &mut W, text: &str) -> (r: Result<(), WriteError>)
    requires
        old(writer).inv(),
    ensures
        write_outcome(*old(writer), *final(writer), c_str(text@), r),
{
    let ghost bytes = encode_utf8(text@);
    match write_all(writer, text.as_bytes()) {
        Ok(()) => {},
        Err(e) => {
            proof {
                lemma_write_failed(*old(writer), *writer, bytes, seq![0u8], Err(e));
            }
            return Err(e);
        },
    }
    let ghost mid = *writer;
    let r = write_u8(writer, 0);
    proof {
        lemma_write_then(*old(writer), mid, *writer, bytes, seq![0u8], r);
    }
    r
}

/// Writes `text` as a NUL-terminated string where there is one.
fn write_optional_c_str<W: ByteSink>(writer: &mut W, text: Option<&str>) -> (r: Result<
    (),
    WriteError,
>)
    requires
        old(writer).inv(),
    ensures
        write_outcome(
            *old(writer),
            *final(writer),
            optional_c_str(
                match text {
                    Some(s) => Some(s@),
                    None => None,
                },
            ),
            r,
        ),
{
    match text {
        Some(text) => write_c_str(writer, text),
        None => {
            proof {
                lemma_write_nothing(*old(writer));
                lemma_write_done(*old(writer), *old(writer), Seq::empty());
            }
            Ok(())
        },
    }
}

/// Writes the block that describes `track`.
fn write_track_block<W: ByteSink>(writer: &mut W, track: &WebvttTrack) -> (r: Result<(), WriteError>)
    requires
        old(writer).inv(),
    ensures
        write_outcome(*old(writer), *final(writer), track_block(track@), r),
{
    let ghost start = *writer;
    let ghost info = track@;
    let ghost p0 = seq![track_flags(info)];
    let ghost p1 = c_str(info.name);
    let ghost p2 = c_str(info.language);
    let ghost p3 = optional_c_str(info.assoc_language);
    let ghost p4 = optional_c_str(info.characteristics);
    let ghost whole = track_block(info);
    proof {
        lemma_write_nothing(start);
        assert(Seq::<u8>::empty() + p0 =~= p0);
        assert(p0 + (p1 + p2 + p3 + p4) =~= whole);
        assert(p0 + p1 + (p2 + p3 + p4) =~= whole);
        assert(p0 + p1 + p2 + (p3 + p4) =~= whole);
    }
    let default: u8 = if track.default { 0x80 } else { 0 };
    let autoselect: u8 = if track.autoselect { 0x40 } else { 0 };
    let forced: u8 = if track.forced { 0x20 } else { 0 };
    let assoc_language: u8 = if track.assoc_language.is_some() { 0x10 } else { 0 };
    let characteristics: u8 = if track.characteristics.is_some() { 0x08 } else { 0 };
    let flags = default | autoselect | forced | assoc_language | characteristics;

    let r = write_u8(writer, flags);
    proof {
        lemma_write_step(start, start, *writer, Seq::empty(), p0, p1 + p2 + p3 + p4, r);
    }
    if let Err(e) = r {
        return Err(e);
    }
    let ghost mid = *writer;
    let r = write_c_str(writer, track.name);
    proof {
        lemma_write_step(start, mid, *writer, p0, p1, p2 + p3 + p4, r);
    }
    if let Err(e) = r {
        return Err(e);
    }
    let ghost mid = *writer;
    let r = write_c_str(writer, track.language);
    proof {
        lemma_write_step(start, mid, *writer, p0 + p1, p2, p3 + p4, r);
    }
    if let Err(e) = r {
        return Err(e);
    }
    let ghost mid = *writer;
    let r = write_optional_c_str(writer, track.assoc_language);
    proof {
        lemma_write_step(start, mid, *writer, p0 + p1 + p2, p3, p4, r);
    }
    if let Err(e) = r {
        return Err(e);
    }
    let ghost mid = *writer;
    let r = write_optional_c_str(writer, track.characteristics);
    proof {
        lemma_write_then(start, mid, *writer, p0 + p1 + p2 + p3, p4, r);
    }
    r
}

/// Writes the blocks of all of `tracks`, one after the other.
fn write_track_blocks<W: ByteSink>(writer: &mut W, tracks: &[WebvttTrack]) -> (r: Result<
    (),
    WriteError,
>)
    requires
        old(writer).inv(),
    ensures
        write_outcome(*old(writer), *final(writer), track_blocks(track_infos(tracks@)), r),
{
    let ghost start = *writer;
    let ghost infos = track_infos(tracks@);
    let ghost whole = track_blocks(infos);
    proof {
        lemma_write_nothing(start);
        assert(infos.take(0) =~= Seq::<TrackInfo>::empty());
    }
    let mut i: usize = 0;
    while i < tracks.len()
        invariant
            i <= tracks.len(),
            start.inv(),
            start == *old(writer),
            infos == track_infos(tracks@),
            whole == track_blocks(infos),
            wrote_all(start, *writer, track_blocks(infos.take(i as int))),
        decreases tracks.len() - i,
    {
        let ghost mid = *writer;
        let ghost done = track_blocks(infos.take(i as int));
        let ghost piece = track_block(infos[i as int]);
        let r = write_track_block(writer, &tracks[i]);
        proof {
            assert(infos.take(i as int + 1).drop_last() =~= infos.take(i as int));
            assert(track_blocks(infos.take(i as int + 1)) == done + piece);
            lemma_track_blocks_split(infos, i as int + 1);
            let rest = track_blocks(infos.skip(i as int + 1));
            lemma_write_step(start, mid, *writer, done, piece, rest, r);
        }
        if let Err(e) = r {
            return Err(e);
        }
        i += 1;
    }
    proof {
        assert(infos.take(i as int) =~= infos);
        lemma_write_done(start, *writer, whole);
    }
    Ok(())
}

/// The blocks of a list of tracks are the blocks of its front part followed
/// by the blocks of what is left.
pub proof fn lemma_track_blocks_split(tracks: Seq<TrackInfo>, k: int)
    requires
        0 <= k <= tracks.len(),
    ensures
        track_blocks(tracks) == track_blocks(tracks.take(k)) + track_blocks(tracks.skip(k)),
    decreases tracks.len(),
{
    if k == tracks.len() {
        assert(tracks.take(k) =~= tracks);
        assert(tracks.skip(k) =~= Seq::<TrackInfo>::empty());
        assert(track_blocks(tracks) + Seq::<u8>::empty() =~= track_blocks(tracks));
    } else {
        let front = tracks.drop_last();
        lemma_track_blocks_split(front, k);
        assert(front.take(k) =~= tracks.take(k));
        assert(tracks.skip(k).drop_last() =~= front.skip(k));
        assert(tracks.skip(k).last() == tracks.last());
        assert(track_blocks(tracks.take(k)) + track_blocks(front.skip(k)) + track_block(
            tracks.last(),
        ) =~= track_blocks(tracks.take(k)) + (track_blocks(front.skip(k)) + track_block(
            tracks.last(),
        )));
    }
}

/// Writes the header record, without a prefix.
fn write_header_record<W: ByteSink>(
    writer: &mut W,
    latency_millis: u16,
    send_frequency_hz: u8,
    subtitle_tracks: &[WebvttTrack],
) -> (r: Result<(), WriteError>)
    requires
        old(writer).inv(),
        subtitle_tracks@.len() <= 0xff,
    ensures
        write_outcome(
            *old(writer),
            *final(writer),
            header_record(latency_millis as nat, send_frequency_hz, track_infos(subtitle_tracks@)),
            r,
        ),
{
    let ghost start = *writer;
    let ghost infos = track_infos(subtitle_tracks@);
    let ghost p0 = be_bytes(HEADER_GUID as nat, 16);
    let ghost p1 = be_bytes(latency_millis as nat, 2);
    let ghost p2 = seq![send_frequency_hz];
    let ghost p3 = seq![infos.len() as u8];
    let ghost p4 = track_blocks(infos);
    let ghost whole = header_record(latency_millis as nat, send_frequency_hz, infos);
    proof {
        lemma_write_nothing(start);
        assert(Seq::<u8>::empty() + p0 =~= p0);
        assert(p0 + (p1 + p2 + p3 + p4) =~= whole);
        assert(p0 + p1 + (p2 + p3 + p4) =~= whole);
        assert(p0 + p1 + p2 + (p3 + p4) =~= whole);
    }
    let guid = uuid_bytes(HEADER_GUID);
    let r = write_all(writer, guid.as_slice());
    proof {
        lemma_write_step(start, start, *writer, Seq::empty(), p0, p1 + p2 + p3 + p4, r);
    }
    if let Err(e) = r {
        return Err(e);
    }
    let ghost mid = *writer;
    let latency = u16_be_bytes(latency_millis);
    let r = write_all(writer, latency.as_slice());
    proof {
        lemma_write_step(start, mid, *writer, p0, p1, p2 + p3 + p4, r);
    }
    if let Err(e) = r {
        return Err(e);
    }
    let ghost mid = *writer;
    let r = write_u8(writer, send_frequency_hz);
    proof {
        lemma_write_step(start, mid, *writer, p0 + p1, p2, p3 + p4, r);
    }
    if let Err(e) = r {
        return Err(e);
    }
    let ghost mid = *writer;
    let r = write_u8(writer, subtitle_tracks.len() as u8);
    proof {
        lemma_write_step(start, mid, *writer, p0 + p1 + p2, p3, p4, r);
    }
    if let Err(e) = r {
        return Err(e);
    }
    let ghost mid = *writer;
    let r = write_track_blocks(writer, subtitle_tracks);
    proof {
        lemma_write_then(start, mid, *writer, p0 + p1 + p2 + p3, p4, r);
    }
    r
}

/// Writes the payload record, without a prefix.
fn write_payload_record<W: ByteSink>(
    writer: &mut W,
    track_index: u8,
    chunk_number: u64,
    chunk_version: u8,
    video_offset_millis: u16,
    webvtt_payload: &str,
) -> (r: Result<(), WriteError>)
    requires
        old(writer).inv(),
    ensures
        write_outcome(
            *old(writer),
            *final(writer),
            payload_record(
                track_index,
                chunk_number,
                chunk_version,
                video_offset_millis as nat,
                webvtt_payload@,
            ),
            r,
        ),
{
    let ghost start = *writer;
    let ghost p0 = be_bytes(PAYLOAD_GUID as nat, 16);
    let ghost p1 = seq![track_index];
    let ghost p2 = be_bytes(chunk_number as nat, 8);
    let ghost p3 = seq![chunk_version];
    let ghost p4 = be_bytes(video_offset_millis as nat, 2);
    let ghost p5 = c_str(webvtt_payload@);
    let ghost whole = payload_record(
        track_index,
        chunk_number,
        chunk_version,
        video_offset_millis as nat,
        webvtt_payload@,
    );
    proof {
        lemma_write_nothing(start);
        assert(Seq::<u8>::empty() + p0 =~= p0);
        assert(p0 + (p1 + p2 + p3 + p4 + p5) =~= whole);
        assert(p0 + p1 + (p2 + p3 + p4 + p5) =~= whole);
        assert(p0 + p1 + p2 + (p3 + p4 + p5) =~= whole);
        assert(p0 + p1 + p2 + p3 + (p4 + p5) =~= whole);
    }
    let guid = uuid_bytes(PAYLOAD_GUID);
    let r = write_all(writer, guid.as_slice());
    proof {
        lemma_write_step(start, start, *writer, Seq::empty(), p0, p1 + p2 + p3 + p4 + p5, r);
    }
    if let Err(e) = r {
        return Err(e);
    }
    let ghost mid = *writer;
    let r = write_u8(writer, track_index);
    proof {
        lemma_write_step(start, mid, *writer, p0, p1, p2 + p3 + p4 + p5, r);
    }
    if let Err(e) = r {
        return Err(e);
    }
    let ghost mid = *writer;
    let number = u64_be_bytes(chunk_number);
    let r = write_all(writer, number.as_slice());
    proof {
        lemma_write_step(start, mid, *writer, p0 + p1, p2, p3 + p4 + p5, r);
    }
    if let Err(e) = r {
        return Err(e);
    }
    let ghost mid = *writer;
    let r = write_u8(writer, chunk_version);
    proof {
        lemma_write_step(start, mid, *writer, p0 + p1 + p2, p3, p4 + p5, r);
    }
    if let Err(e) = r {
        return Err(e);
    }
    let ghost mid = *writer;
    let offset = u16_be_bytes(video_offset_millis);
    let r = write_all(writer, offset.as_slice());
    proof {
        lemma_write_step(start, mid, *writer, p0 + p1 + p2 + p3, p4, p5, r);
    }
    if let Err(e) = r {
        return Err(e);
    }
    let ghost mid = *writer;
    let r = write_c_str(writer, webvtt_payload);
    proof {
        lemma_write_then(start, mid, *writer, p0 + p1 + p2 + p3 + p4, p5, r);
    }
    r
}

/// Writes the SEI message that announces `subtitle_tracks`.
///
/// The record is measured on a counting sink first, then written behind
/// the prefix that tells its size.
pub fn write_webvtt_header<W: ByteSink>(
    writer: &mut W,
    max_latency_to_video: Duration,
    send_frequency_hz: u8,
    subtitle_tracks: &[WebvttTrack],
) -> (r: Result<(), WriteError>)
    requires
        old(writer).inv(),
    ensures
        message_outcome(
            *old(writer),
            *final(writer),
            header_message(
                max_latency_to_video@,
                send_frequency_hz,
                track_infos(subtitle_tracks@),
            ),
            r,
        ),
{
    let millis = max_latency_to_video.as_millis();
    if millis > 0xffff || subtitle_tracks.len() > 0xff {
        return Err(WriteError::NumericOverflow);
    }
    let latency_millis = millis as u16;
    let ghost record = header_record(
        latency_millis as nat,
        send_frequency_hz,
        track_infos(subtitle_tracks@),
    );
    let mut count = CountingSink::new();
    if let Err(e) = write_header_record(
        &mut count,
        latency_millis,
        send_frequency_hz,
        subtitle_tracks,
    ) {
        return Err(e);
    }
    assert(count.taken() =~= record);
    let size = count.count();
    if size == usize::MAX {
        return Err(WriteError::NumericOverflow);
    }
    let ghost start = *writer;
    let ghost prefix = sei_header(USER_DATA_UNREGISTERED as nat, record.len());
    let r = write_sei_header(writer, USER_DATA_UNREGISTERED, size);
    proof {
        lemma_write_nothing(start);
        assert(Seq::<u8>::empty() + prefix =~= prefix);
        lemma_write_step(start, start, *writer, Seq::empty(), prefix, record, r);
    }
    if let Err(e) = r {
        return Err(e);
    }
    let ghost mid = *writer;
    let r = write_header_record(writer, latency_millis, send_frequency_hz, subtitle_tracks);
    proof {
        lemma_write_then(start, mid, *writer, prefix, record, r);
    }
    r
}

/// Writes the SEI message that carries the text `webvtt_payload` of one
/// chunk for one track.
///
/// The record is measured on a counting sink first, then written behind
/// the prefix that tells its size.
pub fn write_webvtt_payload<W: ByteSink>(
    writer: &mut W,
    track_index: u8,
    chunk_number: u64,
    chunk_version: u8,
    video_offset: Duration,
    webvtt_payload: &str,
) -> (r: Result<(), WriteError>)
    requires
        old(writer).inv(),
    ensures
        message_outcome(
            *old(writer),
            *final(writer),
            payload_message(
                track_index,
                chunk_number,
                chunk_version,
                video_offset@,
                webvtt_payload@,
            ),
            r,
        ),
{
    let millis = video_offset.as_millis();
    if millis > 0xffff {
        return Err(WriteError::NumericOverflow);
    }
    let offset_millis = millis as u16;
    let ghost record = payload_record(
        track_index,
        chunk_number,
        chunk_version,
        offset_millis as nat,
        webvtt_payload@,
    );
    let mut count = CountingSink::new();
    if let Err(e) = write_payload_record(
        &mut count,
        track_index,
        chunk_number,
        chunk_version,
        offset_millis,
        webvtt_payload,
    ) {
        return Err(e);
    }
    assert(count.taken() =~= record);
    let size = count.count();
    if size == usize::MAX {
        return Err(WriteError::NumericOverflow);
    }
    let ghost start = *writer;
    let ghost prefix = sei_header(USER_DATA_UNREGISTERED as nat, record.len());
    let r = write_sei_header(writer, USER_DATA_UNREGISTERED, size);
    proof {
        lemma_write_nothing(start);
        assert(Seq::<u8>::empty() + prefix =~= prefix);
        lemma_write_step(start, start, *writer, Seq::empty(), prefix, record, r);
    }
    if let Err(e) = r {
        return Err(e);
    }
    let ghost mid = *writer;
    let r = write_payload_record(
        writer,
        track_index,
        chunk_number,
        chunk_version,
        offset_millis,
        webvtt_payload,
    );
    proof {
        lemma_write_then(start, mid, *writer, prefix, record, r);
    }
    r
}

/// A writer that takes WebVTT records.
pub trait WebvttWrite: ByteSink {
    /// Writes the SEI message that announces `subtitle_tracks`.
    fn write_webvtt_header(
        &mut self,
        max_latency_to_video: Duration,
        send_frequency_hz: u8,
        subtitle_tracks: &[WebvttTrack],
    ) -> (r: Result<(), WriteError>)
        requires
            old(self).inv(),
        ensures
            message_outcome(
                *old(self),
                *final(self),
                header_message(
                    max_latency_to_video@,
                    send_frequency_hz,
                    track_infos(subtitle_tracks@),
                ),
                r,
            ),
    ;

    /// Writes the SEI message that carries the text `webvtt_payload` of one
    /// chunk for one track.
    fn write_webvtt_payload(
        &mut self,
        track_index: u8,
        chunk_number: u64,
        chunk_version: u8,
        video_offset: Duration,
        webvtt_payload: &str,
    ) -> (r: Result<(), WriteError>)
        requires
            old(self).inv(),
        ensures
            message_outcome(
                *old(self),
                *final(self),
                payload_message(
                    track_index,
                    chunk_number,
                    chunk_version,
                    video_offset@,
                    webvtt_payload@,
                ),
                r,
            ),
    ;
}

impl<W: ByteSink> WebvttWrite for RbspWriter<W> {
    fn write_webvtt_header(
        &mut self,
        max_latency_to_video: Duration,
        send_frequency_hz: u8,
        subtitle_tracks: &[WebvttTrack],
    ) -> (r: Result<(), WriteError>) {
        write_webvtt_header(self, max_latency_to_video, send_frequency_hz, subtitle_tracks)
    }

    fn write_webvtt_payload(
        &mut self,
        track_index: u8,
        chunk_number: u64,
        chunk_version: u8,
        video_offset: Duration,
        webvtt_payload: &str,
    ) -> (r: Result<(), WriteError>) {
        write_webvtt_payload(
            self,
            track_index,
            chunk_number,
            chunk_version,
            video_offset,
            webvtt_payload,
        )
    }
}

} // verus!
