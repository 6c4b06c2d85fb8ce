use byteorder::{BigEndian, ReadBytesExt};
use h264_reader::nal::{Nal, RefNal};
use std::io::Read;
use webvtt_in_video_stream::nal::{
    H264ByteStreamWrite, NalHeader, NalHeaderError, NalUnitWrite, NalUnitWriter, UnitType,
};
use webvtt_in_video_stream::rbsp::{RbspWrite, RbspWriter};
use webvtt_in_video_stream::sei::{write_sei_header, USER_DATA_UNREGISTERED};
use webvtt_in_video_stream::sink::{write_all, write_u8, ByteSink, CountingSink};
use webvtt_in_video_stream::time::Duration;
use webvtt_in_video_stream::webvtt::{WebvttWrite, PAYLOAD_GUID};

fn sei_header() -> NalHeader {
    let unit_type = UnitType::from_id(h264_reader::nal::UnitType::SEI.id());
    NalHeader::from_nal_unit_type_and_nal_ref_idc(unit_type, 0).unwrap()
}

fn escaped(raw: &[u8]) -> Vec<u8> {
    let mut writer = RbspWriter::new(Vec::new());
    assert_eq!(writer.write(raw).unwrap(), raw.len());
    writer.finish_rbsp().unwrap()
}

fn decoded(escaped: &[u8]) -> Vec<u8> {
    let mut unit = vec![0x06];
    unit.extend_from_slice(escaped);
    let nal = RefNal::new(&unit, &[], true);
    let mut raw = Vec::new();
    nal.rbsp_bytes().read_to_end(&mut raw).unwrap();
    raw
}

#[test]
fn check_webvtt_sei() {
    let nalu_writer = NalUnitWriter::new(Vec::new());
    let nal_unit_type = h264_reader::nal::UnitType::SEI;
    let nal_ref_idc = 0;
    let nal_header = NalHeader::from_nal_unit_type_and_nal_ref_idc(
        UnitType::from_id(nal_unit_type.id()),
        nal_ref_idc,
    )
    .unwrap();
    let mut payload_writer = nalu_writer.write_nal_header(nal_header).unwrap();
    let track_index = 0;
    let chunk_number = 1;
    let chunk_version = 0;
    let video_offset = Duration::from_millis(200);
    let webvtt_payload = "Some unverified data";
    payload_writer
        .write_webvtt_payload(
            track_index,
            chunk_number,
            chunk_version,
            video_offset,
            webvtt_payload,
        )
        .unwrap();
    let writer = payload_writer.finish_rbsp().unwrap();
    assert!(&writer[3..19] == uuid::Uuid::from_u128(PAYLOAD_GUID).as_bytes());

    let nal = RefNal::new(&writer, &[], true);
    assert!(nal.is_complete());
    assert!(nal.header().unwrap().nal_unit_type() == h264_reader::nal::UnitType::SEI);
    let mut byte_reader = nal.rbsp_bytes();

    assert!(usize::from(byte_reader.read_u8().unwrap()) == USER_DATA_UNREGISTERED);
    let mut length = 0;
    loop {
        let byte = byte_reader.read_u8().unwrap();
        length += usize::from(byte);
        if byte != 255 {
            break;
        }
    }
    assert!(length + 1 == byte_reader.clone().bytes().count());
    byte_reader.read_u128::<BigEndian>().unwrap();
    assert!(track_index == byte_reader.read_u8().unwrap());
    assert!(chunk_number == byte_reader.read_u64::<BigEndian>().unwrap());
    assert!(chunk_version == byte_reader.read_u8().unwrap());
    assert!(
        u16::try_from(video_offset.as_millis()).unwrap()
            == byte_reader.read_u16::<BigEndian>().unwrap()
    );
    println!("{writer:02x?}");
}

#[test]
fn check_webvtt_multi_sei() {
    let nalu_writer = NalUnitWriter::new(Vec::new());
    let nal_unit_type = h264_reader::nal::UnitType::SEI;
    let nal_ref_idc = 0;
    let nal_header = NalHeader::from_nal_unit_type_and_nal_ref_idc(
        UnitType::from_id(nal_unit_type.id()),
        nal_ref_idc,
    )
    .unwrap();
    let mut payload_writer = nalu_writer.write_nal_header(nal_header).unwrap();
    let track_index = 0;
    let chunk_number = 1;
    let chunk_version = 0;
    let video_offset = Duration::from_millis(200);
    let webvtt_payload = "Some unverified data";
    payload_writer
        .write_webvtt_payload(
            track_index,
            chunk_number,
            chunk_version,
            video_offset,
            webvtt_payload,
        )
        .unwrap();
    payload_writer
        .write_webvtt_payload(1, 1, 0, video_offset, "Something else")
        .unwrap();
    let writer = payload_writer.finish_rbsp().unwrap();
    assert!(&writer[3..19] == uuid::Uuid::from_u128(PAYLOAD_GUID).as_bytes());

    let nal = RefNal::new(&writer, &[], true);
    assert!(nal.is_complete());
    assert!(nal.header().unwrap().nal_unit_type() == h264_reader::nal::UnitType::SEI);
    let mut byte_reader = nal.rbsp_bytes();

    assert!(usize::from(byte_reader.read_u8().unwrap()) == USER_DATA_UNREGISTERED);
    let mut _length = 0;
    loop {
        let byte = byte_reader.read_u8().unwrap();
        _length += usize::from(byte);
        if byte != 255 {
            break;
        }
    }
    byte_reader.read_u128::<BigEndian>().unwrap();
    assert!(track_index == byte_reader.read_u8().unwrap());
    assert!(chunk_number == byte_reader.read_u64::<BigEndian>().unwrap());
    assert!(chunk_version == byte_reader.read_u8().unwrap());
    assert!(
        u16::try_from(video_offset.as_millis()).unwrap()
            == byte_reader.read_u16::<BigEndian>().unwrap()
    );
    println!("{writer:02x?}");
}

#[test]
fn multi_sei_second_message_follows_the_first() {
    let mut writer = NalUnitWriter::new(Vec::new())
        .write_nal_header(sei_header())
        .unwrap();
    let offset = Duration::from_millis(200);
    writer
        .write_webvtt_payload(0, 1, 0, offset, "Some unverified data")
        .unwrap();
    writer
        .write_webvtt_payload(1, 1, 0, offset, "Something else")
        .unwrap();
    let unit = writer.finish_rbsp().unwrap();
    let raw = decoded(&unit[1..]);
    let first = 2 + 28 + 20 + 1;
    assert_eq!(raw[0], 5);
    assert_eq!(usize::from(raw[1]), 28 + 20 + 1);
    assert_eq!(raw[first], 5);
    assert_eq!(usize::from(raw[first + 1]), 28 + 14 + 1);
    assert_eq!(
        &raw[first + 2..first + 18],
        uuid::Uuid::from_u128(PAYLOAD_GUID).as_bytes()
    );
    assert_eq!(raw[first + 18], 1);
    assert_eq!(&raw[first + 30..first + 44], b"Something else");
    assert_eq!(raw[first + 44], 0);
    assert_eq!(raw[first + 45], 0x80);
    assert_eq!(raw.len(), first + 46);
}

#[test]
fn nal_header_of_sei_is_06() {
    let header = NalHeader::from_nal_unit_type_and_nal_ref_idc(UnitType::sei(), 0).unwrap();
    assert_eq!(header.as_header_byte(), 0x06);
    assert_eq!(UnitType::sei().id(), 6);
}

#[test]
fn nal_header_of_sei_refuses_a_reference() {
    let r = NalHeader::from_nal_unit_type_and_nal_ref_idc(UnitType::sei(), 1);
    assert!(matches!(
        r,
        Err(NalHeaderError::InvalidNalRefIdcForNalUnitType { nal_unit_type, nal_ref_idc: 1 })
            if nal_unit_type.id() == 6
    ));
}

#[test]
fn nal_header_of_idr_needs_a_reference() {
    let r = NalHeader::from_nal_unit_type_and_nal_ref_idc(UnitType::from_id(5), 0);
    assert!(matches!(
        r,
        Err(NalHeaderError::InvalidNalRefIdcForNalUnitType { nal_unit_type, nal_ref_idc: 0 })
            if nal_unit_type.id() == 5
    ));
    let header = NalHeader::from_nal_unit_type_and_nal_ref_idc(UnitType::from_id(5), 3).unwrap();
    assert_eq!(header.as_header_byte(), 0x65);
}

#[test]
fn nal_header_range_checks() {
    assert!(matches!(
        NalHeader::from_nal_unit_type_and_nal_ref_idc(UnitType::from_id(1), 4),
        Err(NalHeaderError::NalRefIdcOutOfRange(4))
    ));
    assert!(matches!(
        NalHeader::from_nal_unit_type_and_nal_ref_idc(UnitType::from_id(0), 4),
        Err(NalHeaderError::NalRefIdcOutOfRange(4))
    ));
    assert!(matches!(
        NalHeader::from_nal_unit_type_and_nal_ref_idc(UnitType::from_id(0), 0),
        Err(NalHeaderError::NalUnitTypeOutOfRange(t)) if t.id() == 0
    ));
    assert!(matches!(
        NalHeader::from_nal_unit_type_and_nal_ref_idc(UnitType::from_id(32), 0),
        Err(NalHeaderError::NalUnitTypeOutOfRange(t)) if t.id() == 32
    ));
    assert!(matches!(
        NalHeader::from_nal_unit_type_and_nal_ref_idc(UnitType::from_id(255), 3),
        Err(NalHeaderError::NalUnitTypeOutOfRange(t)) if t.id() == 255
    ));
    for id in [9u8, 10, 11, 12] {
        assert!(NalHeader::from_nal_unit_type_and_nal_ref_idc(UnitType::from_id(id), 0).is_ok());
        assert!(NalHeader::from_nal_unit_type_and_nal_ref_idc(UnitType::from_id(id), 2).is_err());
    }
    let plain = NalHeader::from_nal_unit_type_and_nal_ref_idc(UnitType::from_id(31), 2).unwrap();
    assert_eq!(plain.as_header_byte(), 0x5f);
    let slice = NalHeader::from_nal_unit_type_and_nal_ref_idc(UnitType::from_id(1), 0).unwrap();
    assert_eq!(slice.as_header_byte(), 0x01);
}

#[test]
fn nal_header_agrees_with_the_reader() {
    for id in 1u8..32 {
        for idc in 0u8..4 {
            let unit_type = UnitType::from_id(h264_reader::nal::UnitType::for_id(id).unwrap().id());
            if let Ok(header) = NalHeader::from_nal_unit_type_and_nal_ref_idc(unit_type, idc) {
                let read = h264_reader::nal::NalHeader::new(header.as_header_byte()).unwrap();
                assert_eq!(read.nal_ref_idc(), idc);
                assert_eq!(read.nal_unit_type().id(), id);
            }
        }
    }
}

#[test]
fn bare_sink_starts_a_unit_without_writing() {
    let unit = vec![7u8].start_write_nal_unit().unwrap();
    let writer = unit.write_nal_header(sei_header()).unwrap();
    assert_eq!(writer.finish_rbsp().unwrap(), vec![7, 0x06, 0x80]);
}

#[test]
fn rbsp_guards_a_start_code() {
    assert_eq!(escaped(&[0, 0, 0, 1]), vec![0, 0, 3, 0, 1, 0x80]);
}

#[test]
fn rbsp_guards_bytes_below_four_only() {
    assert_eq!(escaped(&[0, 0, 2]), vec![0, 0, 3, 2, 0x80]);
    assert_eq!(escaped(&[0, 0, 3]), vec![0, 0, 3, 3, 0x80]);
    assert_eq!(escaped(&[0, 0, 4]), vec![0, 0, 4, 0x80]);
    assert_eq!(escaped(&[0, 1, 0, 0]), vec![0, 1, 0, 0, 0x80]);
    assert_eq!(escaped(&[]), vec![0x80]);
}

#[test]
fn rbsp_window_restarts_after_a_guard() {
    assert_eq!(
        escaped(&[0, 0, 0, 0, 0, 0]),
        vec![0, 0, 3, 0, 0, 3, 0, 0, 0x80]
    );
    assert_eq!(escaped(&[0, 0, 0, 0, 1]), vec![0, 0, 3, 0, 0, 3, 1, 0x80]);
}

#[test]
fn rbsp_window_spans_writes() {
    let mut writer = RbspWriter::new(vec![0xaa, 0, 0]);
    assert_eq!(writer.write(&[0]).unwrap(), 1);
    assert_eq!(writer.write(&[0]).unwrap(), 1);
    assert_eq!(writer.write(&[1]).unwrap(), 1);
    writer.flush();
    assert_eq!(writer.finish_rbsp().unwrap(), vec![0xaa, 0, 0, 0, 0, 3, 1, 0x80]);
}

#[test]
fn rbsp_round_trip_through_the_reader() {
    let mut raw = Vec::new();
    let mut seed: u32 = 12345;
    for _ in 0..4000 {
        seed = seed.wrapping_mul(1664525).wrapping_add(1013904223);
        raw.push(((seed >> 24) % 5) as u8);
    }
    let out = escaped(&raw);
    for window in out.windows(3) {
        assert!(!(window[0] == 0 && window[1] == 0 && window[2] <= 2));
    }
    let mut expected = raw.clone();
    expected.push(0x80);
    assert_eq!(decoded(&out), expected);
}

#[test]
fn sei_header_uses_ff_bytes() {
    let mut out = Vec::new();
    write_sei_header(&mut out, 5, 49).unwrap();
    assert_eq!(out, vec![5, 49]);
    let mut out = Vec::new();
    write_sei_header(&mut out, 5, 254).unwrap();
    assert_eq!(out, vec![5, 254]);
    let mut out = Vec::new();
    write_sei_header(&mut out, 5, 255).unwrap();
    assert_eq!(out, vec![5, 255, 0]);
    let mut out = Vec::new();
    write_sei_header(&mut out, 5, 600).unwrap();
    assert_eq!(out, vec![5, 255, 255, 90]);
    let mut out = Vec::new();
    write_sei_header(&mut out, 256, 0).unwrap();
    assert_eq!(out, vec![255, 1, 0]);
}

#[test]
fn counting_sink_counts() {
    let mut sink = CountingSink::new();
    assert_eq!(sink.count(), 0);
    assert_eq!(sink.write(&[1, 2, 3]).unwrap(), 3);
    assert_eq!(sink.write(&[]).unwrap(), 0);
    write_all(&mut sink, &[0; 300]).unwrap();
    write_u8(&mut sink, 9).unwrap();
    sink.flush();
    assert_eq!(sink.count(), 304);
}

#[test]
fn vector_sink_appends() {
    let mut sink = vec![1u8];
    assert_eq!(ByteSink::write(&mut sink, &[2, 3]).unwrap(), 2);
    write_u8(&mut sink, 4).unwrap();
    assert_eq!(sink, vec![1, 2, 3, 4]);
}
