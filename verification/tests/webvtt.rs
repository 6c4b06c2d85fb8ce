use webvtt_in_video_stream::sink::WriteError;
use webvtt_in_video_stream::text::{
    push_cue_block, push_timestamp, push_zero_padded, NulError, WebvttString,
};
use webvtt_in_video_stream::time::Duration;
use webvtt_in_video_stream::webvtt::{
    write_webvtt_header, write_webvtt_payload, WebvttTrack, HEADER_GUID, PAYLOAD_GUID,
};

const HEADER_GUID_BYTES: [u8; 16] = [
    0xcc, 0x71, 0x24, 0xbd, 0x5f, 0x1c, 0x45, 0x92, 0xb2, 0x7a, 0xe2, 0xd9, 0xd2, 0x18, 0xef, 0x9e,
];

const PAYLOAD_GUID_BYTES: [u8; 16] = [
    0xa0, 0xcb, 0x4d, 0xd1, 0x9d, 0xb2, 0x46, 0x35, 0xa7, 0x6b, 0x1c, 0x9f, 0xef, 0xd6, 0xc3, 0x7b,
];

fn track<'a>(name: &'a str, language: &'a str) -> WebvttTrack<'a> {
    WebvttTrack {
        default: false,
        autoselect: false,
        forced: false,
        name,
        language,
        assoc_language: None,
        characteristics: None,
    }
}

#[test]
fn guids_are_the_documented_ones() {
    assert_eq!(
        uuid::Uuid::from_u128(HEADER_GUID),
        uuid::Uuid::parse_str("cc7124bd-5f1c-4592-b27a-e2d9d218ef9e").unwrap()
    );
    assert_eq!(
        uuid::Uuid::from_u128(PAYLOAD_GUID),
        uuid::Uuid::parse_str("a0cb4dd1-9db2-4635-a76b-1c9fefd6c37b").unwrap()
    );
}

#[test]
fn header_record_layout() {
    let tracks = [
        WebvttTrack {
            default: true,
            autoselect: false,
            forced: true,
            name: "English",
            language: "en",
            assoc_language: Some("en-GB"),
            characteristics: None,
        },
        WebvttTrack {
            default: false,
            autoselect: true,
            forced: false,
            name: "Türkçe",
            language: "tr",
            assoc_language: None,
            characteristics: Some("public.easy"),
        },
        WebvttTrack {
            default: true,
            autoselect: true,
            forced: true,
            name: "",
            language: "",
            assoc_language: Some(""),
            characteristics: Some(""),
        },
    ];
    let mut out = Vec::new();
    write_webvtt_header(&mut out, Duration::from_millis(0x1234), 25, &tracks).unwrap();
    let mut record = Vec::new();
    record.extend_from_slice(&HEADER_GUID_BYTES);
    record.extend_from_slice(&[0x12, 0x34, 25, 3]);
    record.push(0b1011_0000);
    record.extend_from_slice(b"English\0en\0en-GB\0");
    record.push(0b0100_1000);
    record.extend_from_slice("Türkçe\0tr\0public.easy\0".as_bytes());
    record.push(0b1111_1000);
    record.extend_from_slice(b"\0\0\0\0");
    let mut expected = vec![5, record.len() as u8];
    expected.extend_from_slice(&record);
    assert_eq!(out, expected);
}

#[test]
fn header_latency_is_cut_to_milliseconds() {
    let mut out = Vec::new();
    write_webvtt_header(&mut out, Duration::from_nanos(65_535_999_999), 1, &[]).unwrap();
    assert_eq!(&out[18..22], &[0xff, 0xff, 1, 0]);
    assert_eq!(out.len(), 22);
}

#[test]
fn header_refuses_a_latency_beyond_its_field() {
    let mut out = vec![1u8];
    assert_eq!(
        write_webvtt_header(&mut out, Duration::from_millis(65_536), 1, &[]),
        Err(WriteError::NumericOverflow)
    );
    assert_eq!(out, vec![1]);
}

#[test]
fn header_refuses_more_tracks_than_its_field() {
    let tracks: Vec<WebvttTrack> = (0..256).map(|_| track("a", "b")).collect();
    let mut out = Vec::new();
    assert_eq!(
        write_webvtt_header(&mut out, Duration::from_millis(0), 1, &tracks),
        Err(WriteError::NumericOverflow)
    );
    assert!(out.is_empty());
    assert!(write_webvtt_header(&mut out, Duration::from_millis(0), 1, &tracks[..255]).is_ok());
    let size = 20 + 255 * 5;
    assert_eq!(&out[..7], &[5, 255, 255, 255, 255, 255, (size - 5 * 255) as u8]);
    assert_eq!(out.len(), 7 + size);
    assert_eq!(out[7 + 19], 255);
}

#[test]
fn payload_record_layout() {
    let mut out = Vec::new();
    write_webvtt_payload(
        &mut out,
        7,
        0x0102_0304_0506_0708,
        9,
        Duration::from_millis(0xabcd),
        "text ü",
    )
    .unwrap();
    let mut record = Vec::new();
    record.extend_from_slice(&PAYLOAD_GUID_BYTES);
    record.push(7);
    record.extend_from_slice(&[1, 2, 3, 4, 5, 6, 7, 8]);
    record.push(9);
    record.extend_from_slice(&[0xab, 0xcd]);
    record.extend_from_slice("text ü\0".as_bytes());
    let mut expected = vec![5, record.len() as u8];
    expected.extend_from_slice(&record);
    assert_eq!(out, expected);
}

#[test]
fn payload_size_prefix_grows_with_the_text() {
    let text = "x".repeat(255 - 29);
    let mut out = Vec::new();
    write_webvtt_payload(&mut out, 0, 0, 0, Duration::from_millis(0), &text).unwrap();
    assert_eq!(&out[..3], &[5, 255, 0]);
    assert_eq!(out.len(), 3 + 255);
    let text = "x".repeat(1000);
    let mut out = Vec::new();
    write_webvtt_payload(&mut out, 0, 0, 0, Duration::from_millis(0), &text).unwrap();
    assert_eq!(&out[..6], &[5, 255, 255, 255, 255, (1029 - 4 * 255) as u8]);
    assert_eq!(out.len(), 6 + 1029);
}

#[test]
fn payload_refuses_an_offset_beyond_its_field() {
    let mut out = Vec::new();
    assert!(
        write_webvtt_payload(&mut out, 0, 0, 0, Duration::from_millis(65_535), "").is_ok()
    );
    let mut out = vec![4u8];
    assert_eq!(
        write_webvtt_payload(&mut out, 0, 0, 0, Duration::from_millis(65_536), ""),
        Err(WriteError::NumericOverflow)
    );
    assert_eq!(out, vec![4]);
}

#[test]
fn webvtt_string_takes_a_string_without_nul() {
    let checked = WebvttString::from_string(String::from("Grüße")).ok().unwrap();
    assert_eq!(checked.as_str(), "Grüße");
    assert_eq!(checked.into_string(), "Grüße");
    assert!(WebvttString::from_string(String::new()).is_ok());
}

#[test]
fn webvtt_string_tells_the_first_nul() {
    match WebvttString::from_string(String::from("ü\0b\0")) {
        Err(NulError {
            string,
            nul_position,
        }) => {
            assert_eq!(string, "ü\0b\0");
            assert_eq!(nul_position, 2);
        }
        Ok(_) => panic!("a string with a NUL was accepted"),
    }
    match WebvttString::from_string(String::from("\0")) {
        Err(e) => assert_eq!(e.nul_position, 0),
        Ok(_) => panic!("a string with a NUL was accepted"),
    }
}

#[test]
fn zero_padding_fills_up_to_the_width() {
    let mut s = String::from(">");
    push_zero_padded(&mut s, 0, 2);
    push_zero_padded(&mut s, 7, 3);
    push_zero_padded(&mut s, 42, 2);
    push_zero_padded(&mut s, 123, 2);
    push_zero_padded(&mut s, 9, 0);
    push_zero_padded(&mut s, 1000, 1);
    assert_eq!(s, ">00007421239" .to_string() + "1000");
    let mut s = String::new();
    push_zero_padded(&mut s, u128::MAX, 2);
    assert_eq!(s, u128::MAX.to_string());
}

#[test]
fn timestamps_as_webvtt_writes_them() {
    let mut s = String::new();
    push_timestamp(&mut s, 0);
    assert_eq!(s, "00:00:00.000");
    let mut s = String::new();
    push_timestamp(&mut s, 3_723_004_999_999);
    assert_eq!(s, "01:02:03.004");
    let mut s = String::new();
    push_timestamp(&mut s, 360_000_000_000_000 - 1);
    assert_eq!(s, "99:59:59.999");
    let mut s = String::new();
    push_timestamp(&mut s, 360_000_000_000_000);
    assert_eq!(s, "100:00:00.000");
}

#[test]
fn cue_block_as_webvtt_writes_it() {
    let mut s = String::from("x");
    push_cue_block(&mut s, 100_000_000, 300_000_000, "B");
    assert_eq!(s, "x00:00:00.100 --> 00:00:00.300\nB\n\n");
}

#[test]
fn durations_convert() {
    assert_eq!(Duration::from_secs(2).as_nanos(), 2_000_000_000);
    assert_eq!(Duration::from_millis(1500).as_nanos(), 1_500_000_000);
    assert_eq!(Duration::from_nanos(1_999_999).as_millis(), 1);
    assert_eq!(Duration::from_nanos(1_999_999_999).as_secs(), 1);
    assert_eq!(
        Duration::from_secs(u64::MAX).as_nanos(),
        u128::from(u64::MAX) * 1_000_000_000
    );
    assert_eq!(Duration::from_secs(u64::MAX).as_secs(), u64::MAX);
    let sum = Duration::from_millis(1).checked_add(Duration::from_nanos(5)).unwrap();
    assert_eq!(sum.as_nanos(), 1_000_005);
    assert!(Duration::from_secs(u64::MAX)
        .checked_add(Duration::from_nanos(1))
        .is_none());
    let rest = Duration::from_millis(3).checked_sub(Duration::from_millis(1)).unwrap();
    assert_eq!(rest.as_millis(), 2);
    assert!(Duration::from_millis(1)
        .checked_sub(Duration::from_millis(3))
        .is_none());
    assert_eq!(
        Duration::from_millis(1)
            .checked_sub(Duration::from_millis(1))
            .unwrap()
            .as_nanos(),
        0
    );
}
