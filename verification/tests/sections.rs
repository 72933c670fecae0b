use pointcloud_writer::cv_section::SECTION_HEADER_SIZE;
use pointcloud_writer::error::Error;
use pointcloud_writer::pc_writer::{PointCloud, PointCloudWriter, WriterState};
use pointcloud_writer::record::{point_bit_size, RawPoint, Record, RecordDataType, RecordValue};

fn single_prototype() -> Vec<Record> {
    vec![Record { name: "x".to_string(), data_type: RecordDataType::Single }]
}

fn single_point(value: f32) -> RawPoint {
    let mut point = RawPoint::new();
    point.insert("x".to_string(), RecordValue::Single(value.to_bits()));
    point
}

#[test]
fn capacity_of_single_float_prototype() {
    let prototype = single_prototype();
    assert_eq!(point_bit_size(&prototype), 32);
    let writer = PointCloudWriter::new(0, "guid", prototype);
    assert_eq!(writer.max_points_per_packet(), 16000);
    assert_eq!(writer.state(), WriterState::Open);
}

#[test]
fn full_packet_is_flushed_on_last_point() {
    let mut writer = PointCloudWriter::new(48, "guid", single_prototype());
    let placeholder = writer.section_header();
    assert_eq!(placeholder.section_length, SECTION_HEADER_SIZE);
    assert_eq!(placeholder.data_offset, 48 + SECTION_HEADER_SIZE);
    for i in 0..15999 {
        let bytes = writer.add_point(single_point(i as f32)).unwrap();
        assert!(bytes.is_empty());
    }
    assert_eq!(writer.pending_points(), 15999);
    let packet = writer.add_point(single_point(15999.0)).unwrap();
    assert_eq!(packet.len(), 6 + 2 + 16000 * 4);
    assert_eq!(writer.pending_points(), 0);
    // header: type, flags, length less one, stream count
    assert_eq!(&packet[0..6], &[1, 0, 0x07, 0xfa, 1, 0]);
    // size table
    assert_eq!(&packet[6..8], &[0x00, 0xfa]);
    // first and last value
    assert_eq!(&packet[8..12], &0.0f32.to_le_bytes());
    assert_eq!(&packet[64004..64008], &15999.0f32.to_le_bytes());

    let mut pointclouds: Vec<PointCloud> = Vec::new();
    let end = writer.finalize(&mut pointclouds).unwrap();
    assert!(end.packets.is_empty());
    assert_eq!(end.header.section_length, SECTION_HEADER_SIZE + 64008);
    assert_eq!(end.header.data_offset, 48 + SECTION_HEADER_SIZE);
    assert_eq!(writer.section_header(), end.header);
    assert_eq!(writer.state(), WriterState::Closed);
    assert_eq!(pointclouds.len(), 1);
    assert_eq!(pointclouds[0].records, 16000);
}

#[test]
fn one_point_over_gives_two_packets() {
    let mut writer = PointCloudWriter::new(0, "guid", single_prototype());
    let mut packets = 0;
    let mut written = 0;
    for i in 0..16001 {
        let bytes = writer.add_point(single_point(i as f32)).unwrap();
        if !bytes.is_empty() {
            packets += 1;
            written += bytes.len() as u64;
        }
    }
    assert_eq!(packets, 1);
    assert_eq!(writer.pending_points(), 1);
    let mut pointclouds: Vec<PointCloud> = Vec::new();
    let end = writer.finalize(&mut pointclouds).unwrap();
    // header 6, size table 2, one value of 4 bytes: already a multiple of four
    assert_eq!(end.packets.len(), 12);
    assert_eq!(&end.packets[0..6], &[1, 0, 11, 0, 1, 0]);
    assert_eq!(&end.packets[6..8], &[4, 0]);
    assert_eq!(&end.packets[8..12], &16000.0f32.to_le_bytes());
    written += end.packets.len() as u64;
    assert_eq!(end.header.section_length, SECTION_HEADER_SIZE + written);
    assert_eq!(end.header.section_length, 32 + 64008 + 12);
    assert_eq!(pointclouds[0].records, 16001);
}

#[test]
fn no_points_gives_no_packets() {
    let mut writer = PointCloudWriter::new(1024, "empty cloud", single_prototype());
    let placeholder = writer.section_header();
    let mut pointclouds: Vec<PointCloud> = Vec::new();
    let end = writer.finalize(&mut pointclouds).unwrap();
    assert!(end.packets.is_empty());
    assert_eq!(end.header, placeholder);
    assert_eq!(end.header.section_length, SECTION_HEADER_SIZE);
    assert_eq!(pointclouds.len(), 1);
    assert_eq!(pointclouds[0].guid, "empty cloud");
    assert_eq!(pointclouds[0].records, 0);
    assert_eq!(pointclouds[0].file_offset, 1024);
    assert_eq!(pointclouds[0].prototype, single_prototype());
}

#[test]
fn missing_field_fails_and_writes_nothing() {
    let prototype = vec![
        Record { name: "x".to_string(), data_type: RecordDataType::Single },
        Record {
            name: "intensity".to_string(),
            data_type: RecordDataType::Integer { min: 0, max: 255 },
        },
    ];
    let mut writer = PointCloudWriter::new(0, "guid", prototype);
    let mut complete = RawPoint::new();
    complete.insert("x".to_string(), RecordValue::Single(1.0f32.to_bits()));
    complete.insert("intensity".to_string(), RecordValue::Integer(7));
    assert!(writer.add_point(complete).unwrap().is_empty());
    assert!(writer.add_point(single_point(2.0)).unwrap().is_empty());
    let before = writer.section_header();
    let mut pointclouds: Vec<PointCloud> = Vec::new();
    let result = writer.finalize(&mut pointclouds);
    match result {
        Err(Error::MissingField { name }) => assert_eq!(name, "intensity"),
        _ => panic!("expected a missing field"),
    }
    assert_eq!(writer.section_header(), before);
    assert_eq!(writer.state(), WriterState::Failed);
    assert!(pointclouds.is_empty());
}
