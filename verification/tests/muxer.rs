use h264_reader::nal::{Nal, RefNal};
use std::io::Read;
use webvtt_in_video_stream::annex_b::AnnexBWriter;
use webvtt_in_video_stream::avcc::AVCCWriter;
use webvtt_in_video_stream::codec::{
    mux_into_buffer, CodecFlavor, CodecFlavorH264, CodecFlavorInternal,
};
use webvtt_in_video_stream::muxer::{InvalidWebvttTrack, WebvttMuxer, WebvttMuxerBuilder};
use webvtt_in_video_stream::nal::{H264ByteStreamWrite, NalHeader, NalUnitWrite, UnitType};
use webvtt_in_video_stream::rbsp::{RbspWrite, RbspWriter};
use webvtt_in_video_stream::sink::{MaxNalUnitSizeExceededError, WriteError};
use webvtt_in_video_stream::text::WebvttString;
use webvtt_in_video_stream::time::Duration;

const HEADER_GUID_BYTES: [u8; 16] = [
    0xcc, 0x71, 0x24, 0xbd, 0x5f, 0x1c, 0x45, 0x92, 0xb2, 0x7a, 0xe2, 0xd9, 0xd2, 0x18, 0xef, 0x9e,
];

const PAYLOAD_GUID_BYTES: [u8; 16] = [
    0xa0, 0xcb, 0x4d, 0xd1, 0x9d, 0xb2, 0x46, 0x35, 0xa7, 0x6b, 0x1c, 0x9f, 0xef, 0xd6, 0xc3, 0x7b,
];

fn ms(millis: u64) -> Duration {
    Duration::from_millis(millis)
}

fn text(s: &str) -> WebvttString {
    WebvttString::from_string(String::from(s)).ok().unwrap()
}

fn muxer_with(latency: u64, hz: u8, frame: u64, tracks: &[(&str, &str)]) -> WebvttMuxer {
    let mut builder = WebvttMuxerBuilder::new(ms(latency), hz, ms(frame));
    for (name, language) in tracks {
        assert!(builder
            .add_track(false, false, false, text(name), text(language), None, None)
            .is_ok());
    }
    builder.create_muxer()
}

struct Message {
    guid: [u8; 16],
    body: Vec<u8>,
}

/// Splits the payload of a NAL unit into its messages and checks the stop byte.
fn messages(rbsp: &[u8]) -> Vec<Message> {
    let mut out = Vec::new();
    let mut at = 0;
    while at + 1 < rbsp.len() {
        assert_eq!(rbsp[at], 5);
        at += 1;
        let mut size = 0usize;
        loop {
            let byte = rbsp[at];
            at += 1;
            size += usize::from(byte);
            if byte != 255 {
                break;
            }
        }
        let record = &rbsp[at..at + size];
        at += size;
        let mut guid = [0u8; 16];
        guid.copy_from_slice(&record[..16]);
        out.push(Message {
            guid,
            body: record[16..].to_vec(),
        });
    }
    assert_eq!(rbsp[at..], [0x80]);
    out
}

/// Runs one call on a payload writer over a vector and hands back the answer
/// and the messages written.
fn mux(muxer: &mut WebvttMuxer, at: u64, add_header: bool) -> (Result<bool, WriteError>, Vec<Message>) {
    let mut writer = RbspWriter::new(Vec::new());
    let r = muxer.try_mux_into_bytestream(ms(at), add_header, &mut writer);
    let escaped = writer.finish_rbsp().unwrap();
    let mut unit = vec![0x06];
    unit.extend_from_slice(&escaped);
    let mut rbsp = Vec::new();
    RefNal::new(&unit, &[], true)
        .rbsp_bytes()
        .read_to_end(&mut rbsp)
        .unwrap();
    (r, messages(&rbsp))
}

fn payload_text(message: &Message) -> String {
    assert_eq!(message.guid, PAYLOAD_GUID_BYTES);
    let body = &message.body;
    assert_eq!(body[body.len() - 1], 0);
    String::from_utf8(body[12..body.len() - 1].to_vec()).unwrap()
}

fn chunk_number(message: &Message) -> u64 {
    let mut bytes = [0u8; 8];
    bytes.copy_from_slice(&message.body[1..9]);
    u64::from_be_bytes(bytes)
}

#[test]
fn header_and_first_chunk_in_annex_b() {
    let mut muxer = muxer_with(0, 1, 33, &[("en", "en"), ("de", "de")]);
    muxer.add_cue(0, ms(0), ms(1000), text("Hello")).ok().unwrap();
    let mut writer = AnnexBWriter::new(Vec::new())
        .start_write_nal_unit()
        .unwrap()
        .write_nal_header(NalHeader::from_nal_unit_type_and_nal_ref_idc(UnitType::sei(), 0).unwrap())
        .unwrap();
    assert_eq!(muxer.try_mux_into_bytestream(ms(0), true, &mut writer), Ok(true));
    let out = writer.finish_rbsp().unwrap().into_inner();
    assert_eq!(&out[..5], &[0, 0, 0, 1, 0x06]);
    let mut rbsp = Vec::new();
    RefNal::new(&out[4..], &[], true)
        .rbsp_bytes()
        .read_to_end(&mut rbsp)
        .unwrap();
    let found = messages(&rbsp);
    assert_eq!(found.len(), 3);
    assert_eq!(found[0].guid, HEADER_GUID_BYTES);
    assert_eq!(
        found[0].body,
        [&[0u8, 0, 1, 2][..], b"\0en\0en\0", b"\0de\0de\0"].concat()
    );
    assert_eq!(found[1].body[..12], [0, 0, 0, 0, 0, 0, 0, 0, 0, 0, 0, 0]);
    assert_eq!(payload_text(&found[1]), "00:00:00.000 --> 00:00:01.000\nHello\n\n");
    assert_eq!(found[2].body, [1, 0, 0, 0, 0, 0, 0, 0, 0, 0, 0, 0, 0]);
    assert_eq!(payload_text(&found[2]), "");
}

#[test]
fn cues_show_in_the_order_of_their_start() {
    let mut muxer = muxer_with(0, 1, 33, &[("en", "en"), ("de", "de")]);
    muxer.add_cue(0, ms(500), ms(2000), text("A")).ok().unwrap();
    muxer.add_cue(0, ms(100), ms(200), text("B")).ok().unwrap();
    let (r, found) = mux(&mut muxer, 0, false);
    assert_eq!(r, Ok(true));
    assert_eq!(found.len(), 2);
    assert_eq!(
        payload_text(&found[0]),
        "00:00:00.100 --> 00:00:00.300\nB\n\n00:00:00.500 --> 00:00:01.000\nA\n\n"
    );
    assert_eq!(payload_text(&found[1]), "");
}

#[test]
fn cues_of_one_start_keep_the_order_of_their_coming() {
    let mut muxer = muxer_with(0, 1, 33, &[("en", "en")]);
    for (start, name) in [(300, "c1"), (100, "a1"), (300, "c2"), (200, "b1"), (100, "a2"), (300, "c3"), (0, "z")] {
        muxer.add_cue(0, ms(start), ms(50), text(name)).ok().unwrap();
    }
    let (r, found) = mux(&mut muxer, 0, false);
    assert_eq!(r, Ok(true));
    let shown = payload_text(&found[0]);
    let names: Vec<&str> = shown.lines().filter(|l| !l.is_empty() && !l.contains("-->")).collect();
    assert_eq!(names, ["z", "a1", "a2", "b1", "c1", "c2", "c3"]);
    let starts: Vec<&str> = shown.lines().filter(|l| l.contains("-->")).map(|l| &l[..12]).collect();
    assert_eq!(
        starts,
        [
            "00:00:00.000",
            "00:00:00.100",
            "00:00:00.100",
            "00:00:00.200",
            "00:00:00.300",
            "00:00:00.300",
            "00:00:00.300"
        ]
    );
}

#[test]
fn chunks_come_at_the_send_frequency() {
    let mut muxer = muxer_with(0, 2, 16, &[("en", "en")]);
    let (r, found) = mux(&mut muxer, 0, false);
    assert_eq!(r, Ok(true));
    assert_eq!(chunk_number(&found[0]), 0);
    let (r, found) = mux(&mut muxer, 0, false);
    assert_eq!(r, Ok(false));
    assert!(found.is_empty());
    let (r, found) = mux(&mut muxer, 467, false);
    assert_eq!(r, Ok(false));
    assert!(found.is_empty());
    let (r, found) = mux(&mut muxer, 500, false);
    assert_eq!(r, Ok(true));
    assert_eq!(chunk_number(&found[0]), 1);
    assert_eq!(found[0].body[10..12], [0, 0]);
    let (r, found) = mux(&mut muxer, 1234, false);
    assert_eq!(r, Ok(true));
    assert_eq!(chunk_number(&found[0]), 2);
    assert_eq!(found[0].body[10..12], [0, 234]);
}

#[test]
fn scheduling_without_tracks() {
    let mut muxer = muxer_with(0, 2, 16, &[]);
    assert_eq!(muxer.next_chunk_number(), 0);
    assert!(muxer.first_video_timestamp().is_none());
    let (r, found) = mux(&mut muxer, 0, false);
    assert_eq!(r, Ok(true));
    assert!(found.is_empty());
    assert_eq!(muxer.next_chunk_number(), 1);
    assert_eq!(muxer.first_video_timestamp().map(|t| t.as_nanos()), Some(0));
    let (r, _) = mux(&mut muxer, 0, false);
    assert_eq!(r, Ok(false));
    assert_eq!(muxer.next_chunk_number(), 1);
    let (r, found) = mux(&mut muxer, 490, false);
    assert_eq!(r, Ok(true));
    assert!(found.is_empty());
    assert_eq!(muxer.next_chunk_number(), 2);
}

#[test]
fn new_muxer_starts_at_chunk_zero() {
    let mut muxer = muxer_with(7, 5, 16, &[("en", "en"), ("de", "de")]);
    assert_eq!(muxer.next_chunk_number(), 0);
    assert!(muxer.first_video_timestamp().is_none());
    let (r, found) = mux(&mut muxer, 1234, true);
    assert_eq!(r, Ok(true));
    assert_eq!(found.len(), 3);
    assert_eq!(found[0].body[..4], [0, 7, 5, 2]);
    assert_eq!(chunk_number(&found[1]), 0);
    assert_eq!(payload_text(&found[1]), "");
    assert_eq!(payload_text(&found[2]), "");
    assert_eq!(muxer.next_chunk_number(), 1);
    assert_eq!(
        muxer.first_video_timestamp().map(|t| t.as_millis()),
        Some(1234)
    );
}

#[test]
fn first_call_latches_even_when_the_offset_fails() {
    let mut muxer = muxer_with(0, 2, 16, &[("en", "en")]);
    assert_eq!(mux(&mut muxer, 100, false).0, Ok(true));
    let (r, _) = mux(&mut muxer, 590, false);
    assert_eq!(r, Err(WriteError::NumericOverflow));
    assert_eq!(muxer.next_chunk_number(), 1);
    assert_eq!(
        muxer.first_video_timestamp().map(|t| t.as_millis()),
        Some(100)
    );
}

#[test]
fn chunk_due_before_its_time_has_no_offset_to_send() {
    let mut muxer = muxer_with(0, 2, 16, &[("en", "en")]);
    assert_eq!(mux(&mut muxer, 0, false).0, Ok(true));
    assert_eq!(mux(&mut muxer, 0, false).0, Ok(false));
    let (r, found) = mux(&mut muxer, 490, false);
    assert_eq!(r, Err(WriteError::NumericOverflow));
    assert!(found.is_empty());
    let (r, found) = mux(&mut muxer, 500, false);
    assert_eq!(r, Ok(true));
    assert_eq!(chunk_number(&found[0]), 1);
}

#[test]
fn chunk_due_before_its_time_is_sent_with_latency() {
    let mut muxer = muxer_with(40, 2, 16, &[("en", "en")]);
    let (r, _) = mux(&mut muxer, 0, false);
    assert_eq!(r, Ok(false));
    let (r, found) = mux(&mut muxer, 8, false);
    assert_eq!(r, Ok(true));
    assert_eq!(chunk_number(&found[0]), 0);
    assert_eq!(found[0].body[10..12], [0, 8]);
    let (r, _) = mux(&mut muxer, 507, false);
    assert_eq!(r, Ok(false));
    let (r, found) = mux(&mut muxer, 508, false);
    assert_eq!(r, Ok(true));
    assert_eq!(chunk_number(&found[0]), 1);
    assert_eq!(found[0].body[10..12], [0, 8]);
}

#[test]
fn header_alone_does_not_count_as_a_chunk() {
    let mut muxer = muxer_with(0, 1, 33, &[("en", "en")]);
    let (r, found) = mux(&mut muxer, 0, true);
    assert_eq!(r, Ok(true));
    assert_eq!(found.len(), 2);
    assert_eq!(chunk_number(&found[1]), 0);
    for _ in 0..3 {
        let (r, found) = mux(&mut muxer, 100, true);
        assert_eq!(r, Ok(true));
        assert_eq!(found.len(), 1);
        assert_eq!(found[0].guid, HEADER_GUID_BYTES);
    }
    let (r, found) = mux(&mut muxer, 100, false);
    assert_eq!(r, Ok(false));
    assert!(found.is_empty());
    let (r, found) = mux(&mut muxer, 1000, true);
    assert_eq!(r, Ok(true));
    assert_eq!(found.len(), 2);
    assert_eq!(chunk_number(&found[1]), 1);
}

#[test]
fn one_chunk_per_call_even_when_late() {
    let mut muxer = muxer_with(0, 10, 10, &[("en", "en")]);
    assert_eq!(mux(&mut muxer, 0, false).0, Ok(true));
    for expected in 1..5u64 {
        let (r, found) = mux(&mut muxer, 10_000, false);
        assert_eq!(r, Ok(true));
        assert_eq!(found.len(), 1);
        assert_eq!(chunk_number(&found[0]), expected);
    }
}

#[test]
fn first_call_sets_the_start_even_when_nothing_is_due() {
    let mut muxer = muxer_with(1000, 1, 10, &[("en", "en")]);
    assert_eq!(mux(&mut muxer, 5000, false).0, Ok(false));
    assert_eq!(mux(&mut muxer, 5979, false).0, Ok(false));
    let (r, found) = mux(&mut muxer, 5980, false);
    assert_eq!(r, Ok(true));
    assert_eq!(found[0].body[10..12], [0x03, 0xd4]);
}

#[test]
fn period_is_the_nearest_nanosecond() {
    let mut muxer = muxer_with(0, 3, 0, &[("en", "en")]);
    muxer.add_cue(0, ms(0), ms(5000), text("long")).ok().unwrap();
    assert_eq!(mux(&mut muxer, 0, false).0, Ok(true));
    let (r, found) = mux(&mut muxer, 334, false);
    assert_eq!(r, Ok(true));
    assert_eq!(
        payload_text(&found[0]),
        "00:00:00.333 --> 00:00:00.666\nlong\n\n"
    );
    let (r, found) = mux(&mut muxer, 667, false);
    assert_eq!(r, Ok(true));
    assert_eq!(
        payload_text(&found[0]),
        "00:00:00.666 --> 00:00:00.999\nlong\n\n"
    );
    assert_eq!(found[0].body[10..12], [0, 0]);
    let (r, found) = mux(&mut muxer, 1000, false);
    assert_eq!(r, Ok(true));
    assert_eq!(
        payload_text(&found[0]),
        "00:00:00.999 --> 00:00:01.333\nlong\n\n"
    );
}

#[test]
fn expired_cues_leave_and_later_cues_wait() {
    let mut muxer = muxer_with(0, 1, 0, &[("en", "en")]);
    muxer.add_cue(0, ms(0), ms(999), text("gone")).ok().unwrap();
    muxer.add_cue(0, ms(0), ms(1000), text("edge")).ok().unwrap();
    muxer.add_cue(0, ms(1500), ms(1000), text("mid")).ok().unwrap();
    muxer.add_cue(0, ms(2000), ms(10), text("end")).ok().unwrap();
    muxer.add_cue(0, ms(2001), ms(10), text("later")).ok().unwrap();
    assert_eq!(mux(&mut muxer, 0, false).0, Ok(true));
    let (r, found) = mux(&mut muxer, 1000, false);
    assert_eq!(r, Ok(true));
    assert_eq!(
        payload_text(&found[0]),
        "00:00:01.000 --> 00:00:01.000\nedge\n\n00:00:01.500 --> 00:00:02.000\nmid\n\n00:00:02.000 --> 00:00:02.000\nend\n\n"
    );
    let (r, found) = mux(&mut muxer, 2000, false);
    assert_eq!(r, Ok(true));
    assert_eq!(
        payload_text(&found[0]),
        "00:00:02.000 --> 00:00:02.500\nmid\n\n00:00:02.000 --> 00:00:02.010\nend\n\n00:00:02.001 --> 00:00:02.011\nlater\n\n"
    );
}

#[test]
fn cue_for_a_missing_track_is_refused() {
    let mut muxer = muxer_with(0, 1, 33, &[("en", "en"), ("de", "de")]);
    assert!(muxer.add_cue(1, ms(0), ms(1), text("ok")).is_ok());
    match muxer.add_cue(2, ms(0), ms(1), text("no")) {
        Err(InvalidWebvttTrack(track)) => assert_eq!(track, 2),
        Ok(()) => panic!("a cue for a missing track was accepted"),
    }
    let (_, found) = mux(&mut muxer, 0, false);
    assert_eq!(payload_text(&found[0]), "");
    assert_eq!(payload_text(&found[1]), "00:00:00.000 --> 00:00:00.001\nok\n\n");
}

#[test]
fn builder_takes_255_tracks_and_no_more() {
    let mut builder = WebvttMuxerBuilder::new(ms(0), 1, ms(33));
    for i in 0..255 {
        let r = builder.add_track(
            i % 2 == 0,
            false,
            false,
            text(&format!("n{i}")),
            text("l"),
            None,
            None,
        );
        assert!(r.is_ok());
    }
    match builder.add_track(true, true, true, text("name"), text("lang"), Some(text("assoc")), None) {
        Err(e) => {
            assert_eq!(e.name.as_str(), "name");
            assert_eq!(e.language.as_str(), "lang");
            assert_eq!(e.assoc_language.map(|s| s.into_string()), Some(String::from("assoc")));
            assert!(e.characteristics.is_none());
        }
        Ok(_) => panic!("a 256th track was accepted"),
    }
    let mut muxer = builder.create_muxer();
    let (r, found) = mux(&mut muxer, 0, true);
    assert_eq!(r, Ok(true));
    assert_eq!(found.len(), 256);
    assert_eq!(found[0].body[3], 255);
    assert_eq!(&found[0].body[4..10], b"\x80n0\0l\0");
    assert_eq!(found[255].body[0], 254);
    assert!(muxer.add_cue(254, ms(0), ms(1), text("x")).is_ok());
    assert!(muxer.add_cue(255, ms(0), ms(1), text("x")).is_err());
}

#[test]
fn builder_chains() {
    let mut builder = WebvttMuxerBuilder::new(ms(0), 1, ms(33));
    builder
        .add_track(false, false, false, text("a"), text("b"), None, Some(text("c")))
        .ok()
        .unwrap()
        .add_track(false, true, false, text("d"), text("e"), Some(text("f")), None)
        .ok()
        .unwrap();
    let mut muxer = builder.create_muxer();
    let (_, found) = mux(&mut muxer, 7, true);
    assert_eq!(
        found[0].body,
        [&[0u8, 0, 1, 2][..], b"\x08a\0b\0c\0", b"\x50d\0e\0f\0"].concat()
    );
}

#[test]
fn header_refused_by_the_writer_comes_back_as_the_writer_gave_it() {
    let mut muxer = muxer_with(0, 1, 33, &[(&"n".repeat(300), "en")]);
    let mut writer = AVCCWriter::new(1, Vec::new())
        .unwrap()
        .start_write_nal_unit()
        .unwrap()
        .write_nal_header(NalHeader::from_nal_unit_type_and_nal_ref_idc(UnitType::sei(), 0).unwrap())
        .unwrap();
    assert_eq!(
        muxer.try_mux_into_bytestream(ms(0), true, &mut writer),
        Err(WriteError::NalUnitTooLarge(MaxNalUnitSizeExceededError {
            max: 255,
            required: 256
        }))
    );
    assert_eq!(muxer.next_chunk_number(), 0);
    assert!(muxer.first_video_timestamp().is_none());
}

#[test]
fn header_with_a_latency_beyond_its_field_fails() {
    let mut muxer = muxer_with(65_536, 1, 33, &[("en", "en")]);
    let (r, found) = mux(&mut muxer, 0, true);
    assert_eq!(r, Err(WriteError::NumericOverflow));
    assert!(found.is_empty());
}

#[test]
fn offset_beyond_its_field_fails() {
    let mut muxer = muxer_with(0, 1, 33, &[("en", "en")]);
    assert_eq!(mux(&mut muxer, 0, false).0, Ok(true));
    let (r, found) = mux(&mut muxer, 1000 + 65_536, false);
    assert_eq!(r, Err(WriteError::NumericOverflow));
    assert!(found.is_empty());
    let (r, found) = mux(&mut muxer, 1000 + 65_535, false);
    assert_eq!(r, Ok(true));
    assert_eq!(found[0].body[10..12], [0xff, 0xff]);
    assert_eq!(chunk_number(&found[0]), 1);
}

#[test]
fn failed_chunk_is_sent_again() {
    let mut muxer = muxer_with(0, 1, 33, &[("en", "en"), ("de", "de")]);
    muxer.add_cue(1, ms(0), ms(1000), text(&"x".repeat(300))).ok().unwrap();
    let mut writer = AVCCWriter::new(1, Vec::new())
        .unwrap()
        .start_write_nal_unit()
        .unwrap()
        .write_nal_header(NalHeader::from_nal_unit_type_and_nal_ref_idc(UnitType::sei(), 0).unwrap())
        .unwrap();
    assert_eq!(
        muxer.try_mux_into_bytestream(ms(0), false, &mut writer),
        Err(WriteError::NalUnitTooLarge(MaxNalUnitSizeExceededError {
            max: 255,
            required: 256
        }))
    );
    assert_eq!(muxer.next_chunk_number(), 0);
    let (r, found) = mux(&mut muxer, 0, false);
    assert_eq!(r, Ok(true));
    assert_eq!(chunk_number(&found[0]), 0);
    assert_eq!(chunk_number(&found[1]), 0);
    assert_eq!(payload_text(&found[1]).len(), 30 + 300 + 2);
}

#[test]
fn codec_flavors_by_number() {
    assert!(matches!(CodecFlavor::from_repr(0), Some(CodecFlavor::H264Avcc1)));
    assert!(matches!(CodecFlavor::from_repr(1), Some(CodecFlavor::H264Avcc2)));
    assert!(matches!(CodecFlavor::from_repr(2), Some(CodecFlavor::H264Avcc4)));
    assert!(matches!(CodecFlavor::from_repr(3), Some(CodecFlavor::H264AnnexB)));
    assert!(CodecFlavor::from_repr(4).is_none());
    assert!(CodecFlavor::from_repr(255).is_none());
    assert!(matches!(
        CodecFlavor::H264Avcc1.into_internal(),
        CodecFlavorInternal::H264(CodecFlavorH264::Avcc(1))
    ));
    assert!(matches!(
        CodecFlavor::H264Avcc2.into_internal(),
        CodecFlavorInternal::H264(CodecFlavorH264::Avcc(2))
    ));
    assert!(matches!(
        CodecFlavor::H264Avcc4.into_internal(),
        CodecFlavorInternal::H264(CodecFlavorH264::Avcc(4))
    ));
    assert!(matches!(
        CodecFlavor::H264AnnexB.into_internal(),
        CodecFlavorInternal::H264(CodecFlavorH264::AnnexB)
    ));
}

#[test]
fn mux_into_buffer_frames_by_flavor() {
    let unit: Vec<u8> = {
        let mut muxer = muxer_with(0, 1, 33, &[("en", "en")]);
        let mut writer = RbspWriter::new(vec![0x06]);
        assert_eq!(muxer.try_mux_into_bytestream(ms(0), true, &mut writer), Ok(true));
        writer.finish_rbsp().unwrap()
    };
    let length = unit.len();
    assert!(length < 256);
    for (flavor, prefix) in [
        (0u8, vec![length as u8]),
        (1, vec![0, length as u8]),
        (2, vec![0, 0, 0, length as u8]),
        (3, vec![0, 0, 0, 1]),
    ] {
        let mut muxer = muxer_with(0, 1, 33, &[("en", "en")]);
        let buffer = mux_into_buffer(&mut muxer, ms(0), true, flavor).unwrap();
        assert_eq!(buffer.data(), [prefix, unit.clone()].concat());
        assert_eq!(buffer.length(), buffer.data().len());
    }
}

#[test]
fn mux_into_buffer_hands_back_nothing_without_data() {
    let mut muxer = muxer_with(0, 1, 33, &[("en", "en")]);
    assert!(mux_into_buffer(&mut muxer, ms(0), false, 4).is_none());
    assert!(mux_into_buffer(&mut muxer, ms(0), false, 3).is_some());
    assert!(mux_into_buffer(&mut muxer, ms(0), false, 3).is_none());
    assert!(mux_into_buffer(&mut muxer, ms(0), false, 0).is_none());
    assert!(mux_into_buffer(&mut muxer, ms(0), true, 3).is_some());
    assert!(mux_into_buffer(&mut muxer, ms(500), false, 3).is_none());
    muxer.add_cue(0, ms(1000), ms(1000), text(&"y".repeat(400))).ok().unwrap();
    assert!(mux_into_buffer(&mut muxer, ms(1000), false, 0).is_none());
    let buffer = mux_into_buffer(&mut muxer, ms(1000), false, 1).unwrap();
    let record = 28 + 30 + 400 + 2 + 1;
    let guards = 5;
    assert_eq!(buffer.length(), 2 + 1 + 3 + record + guards + 1);
}
