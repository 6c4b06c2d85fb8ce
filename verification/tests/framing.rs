use webvtt_in_video_stream::annex_b::AnnexBWriter;
use webvtt_in_video_stream::avcc::{AVCCWriter, AVCCWriterBuffer, InvalidLengthError};
use webvtt_in_video_stream::nal::{H264ByteStreamWrite, NalHeader, NalUnitWrite, UnitType};
use webvtt_in_video_stream::rbsp::RbspWrite;
use webvtt_in_video_stream::sink::{ByteSink, MaxNalUnitSizeExceededError, WriteError};
use webvtt_in_video_stream::time::Duration;
use webvtt_in_video_stream::webvtt::{WebvttWrite, HEADER_GUID, PAYLOAD_GUID};

fn sei_header() -> NalHeader {
    NalHeader::from_nal_unit_type_and_nal_ref_idc(UnitType::sei(), 0).unwrap()
}

#[test]
fn annex_b_first_unit_has_the_leading_zero() {
    let mut writer = AnnexBWriter::new(Vec::new())
        .start_write_nal_unit()
        .unwrap()
        .write_nal_header(sei_header())
        .unwrap();
    assert_eq!(writer.write(&[1, 2, 3]).unwrap(), 3);
    let out = writer.finish_rbsp().unwrap().into_inner();
    assert_eq!(out, vec![0, 0, 0, 1, 0x06, 1, 2, 3, 0x80]);
}

#[test]
fn annex_b_later_units_have_the_short_start_code() {
    let mut writer = AnnexBWriter::new(Vec::new())
        .start_write_nal_unit()
        .unwrap()
        .write_nal_header(sei_header())
        .unwrap();
    writer.write(&[0, 0]).unwrap();
    let framing = writer.finish_rbsp().unwrap();
    let mut writer = framing
        .start_write_nal_unit()
        .unwrap()
        .write_nal_header(sei_header())
        .unwrap();
    writer.write(&[1]).unwrap();
    let framing = writer.finish_rbsp().unwrap();
    let writer = framing
        .start_write_nal_unit()
        .unwrap()
        .write_nal_header(sei_header())
        .unwrap();
    let out = writer.finish_rbsp().unwrap().into_inner();
    assert_eq!(
        out,
        vec![0, 0, 0, 1, 0x06, 0, 0, 0x80, 0, 0, 1, 0x06, 1, 0x80, 0, 0, 1, 0x06, 0x80]
    );
}

#[test]
fn annex_b_guid_stands_behind_the_headers() {
    let mut writer = AnnexBWriter::new(Vec::new())
        .start_write_nal_unit()
        .unwrap()
        .write_nal_header(sei_header())
        .unwrap();
    writer
        .write_webvtt_payload(0, 0, 0, Duration::from_millis(0), "")
        .unwrap();
    let framing = writer.finish_rbsp().unwrap();
    let mut writer = framing
        .start_write_nal_unit()
        .unwrap()
        .write_nal_header(sei_header())
        .unwrap();
    writer
        .write_webvtt_header(Duration::from_millis(0), 1, &[])
        .unwrap();
    let out = writer.finish_rbsp().unwrap().into_inner();
    assert_eq!(&out[..7], &[0, 0, 0, 1, 0x06, 5, 29]);
    assert_eq!(&out[7..23], uuid::Uuid::from_u128(PAYLOAD_GUID).as_bytes());
    let second = out.len() - (3 + 1 + 2 + 20 + 1 + 1);
    assert_eq!(&out[second..second + 6], &[0, 0, 1, 0x06, 5, 20]);
    assert_eq!(
        &out[second + 3 + 1 + 2..second + 3 + 1 + 2 + 16],
        uuid::Uuid::from_u128(HEADER_GUID).as_bytes()
    );
}

#[test]
fn avcc_refuses_other_length_sizes() {
    for length_size in [0usize, 3, 5, 8] {
        match AVCCWriter::new(length_size, Vec::new()) {
            Err(InvalidLengthError(size)) => assert_eq!(size, length_size),
            Ok(_) => panic!("length size {length_size} was accepted"),
        }
    }
    for length_size in [1usize, 2, 4] {
        assert!(AVCCWriter::new(length_size, Vec::new()).is_ok());
    }
}

#[test]
fn avcc_buffer_refuses_what_the_length_cannot_tell() {
    let mut buffer = AVCCWriterBuffer::new(AVCCWriter::new(1, Vec::new()).unwrap());
    assert_eq!(buffer.write(&[7; 200]).unwrap(), 200);
    assert_eq!(
        buffer.write(&[7; 100]),
        Err(WriteError::NalUnitTooLarge(MaxNalUnitSizeExceededError {
            max: 255,
            required: 300
        }))
    );
    assert_eq!(buffer.write(&[7; 55]).unwrap(), 55);
    assert_eq!(
        buffer.write(&[7]),
        Err(WriteError::NalUnitTooLarge(MaxNalUnitSizeExceededError {
            max: 255,
            required: 256
        }))
    );
    buffer.flush();
    let out = buffer.finish().unwrap().into_inner();
    assert_eq!(out.len(), 256);
    assert_eq!(out[0], 255);
    assert!(out[1..].iter().all(|b| *b == 7));
}

#[test]
fn avcc_limit_of_two_bytes() {
    let mut buffer = AVCCWriterBuffer::new(AVCCWriter::new(2, Vec::new()).unwrap());
    assert_eq!(buffer.write(&vec![1; 0xffff]).unwrap(), 0xffff);
    assert_eq!(
        buffer.write(&[1]),
        Err(WriteError::NalUnitTooLarge(MaxNalUnitSizeExceededError {
            max: 0xffff,
            required: 0x10000
        }))
    );
    let out = buffer.finish().unwrap().into_inner();
    assert_eq!(&out[..2], &[0xff, 0xff]);
    assert_eq!(out.len(), 2 + 0xffff);
}

#[test]
fn avcc_prefix_is_the_length_of_the_unit() {
    for (length_size, prefix) in [
        (1usize, vec![5u8]),
        (2, vec![0, 5]),
        (4, vec![0, 0, 0, 5]),
    ] {
        let mut writer = AVCCWriter::new(length_size, vec![0xee])
            .unwrap()
            .start_write_nal_unit()
            .unwrap()
            .write_nal_header(sei_header())
            .unwrap();
        writer.write(&[1, 2, 3]).unwrap();
        let out = writer.finish_rbsp().unwrap().into_inner();
        let mut expected = vec![0xee];
        expected.extend_from_slice(&prefix);
        expected.extend_from_slice(&[0x06, 1, 2, 3, 0x80]);
        assert_eq!(out, expected);
    }
}

#[test]
fn avcc_prefix_counts_the_guard_bytes() {
    let mut writer = AVCCWriter::new(2, Vec::new())
        .unwrap()
        .start_write_nal_unit()
        .unwrap()
        .write_nal_header(sei_header())
        .unwrap();
    writer.write(&vec![0; 300]).unwrap();
    let out = writer.finish_rbsp().unwrap().into_inner();
    let body = 1 + 300 + 149 + 1;
    assert_eq!(out.len(), 2 + body);
    assert_eq!(usize::from(out[0]) * 256 + usize::from(out[1]), body);
}

#[test]
fn avcc_unit_too_large_for_one_byte() {
    let mut writer = AVCCWriter::new(1, Vec::new())
        .unwrap()
        .start_write_nal_unit()
        .unwrap()
        .write_nal_header(sei_header())
        .unwrap();
    assert_eq!(writer.write(&[9; 253]).unwrap(), 253);
    assert!(matches!(
        writer.finish_rbsp(),
        Ok(_)
    ));
    let mut writer = AVCCWriter::new(1, Vec::new())
        .unwrap()
        .start_write_nal_unit()
        .unwrap()
        .write_nal_header(sei_header())
        .unwrap();
    assert_eq!(writer.write(&[9; 254]).unwrap(), 254);
    assert!(matches!(
        writer.finish_rbsp(),
        Err(WriteError::NalUnitTooLarge(MaxNalUnitSizeExceededError {
            max: 255,
            required: 256
        }))
    ));
    let mut writer = AVCCWriter::new(1, Vec::new())
        .unwrap()
        .start_write_nal_unit()
        .unwrap()
        .write_nal_header(sei_header())
        .unwrap();
    assert!(matches!(
        writer.write_webvtt_payload(0, 0, 0, Duration::from_millis(0), &"x".repeat(230)),
        Err(WriteError::NalUnitTooLarge(_))
    ));
}
