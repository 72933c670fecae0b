use pointcloud_writer::bs_out::ByteStreamOutBuffer;
use pointcloud_writer::cv_section::{push_zeros, CompressedVectorSectionHeader, SECTION_HEADER_SIZE};
use pointcloud_writer::endian::push_le;
use pointcloud_writer::error::{Error, InternalFault};
use pointcloud_writer::packet::{frame_packet, push_bytes, DataPacketHeader, PACKET_HEADER_SIZE};
use pointcloud_writer::record::{bit_length_of, point_bit_size, Record, RecordDataType, RecordValue};
use pointcloud_writer::record::Unrepresentable;

#[test]
fn new_buffer_is_empty() {
    let mut buffer = ByteStreamOutBuffer::new();
    assert_eq!(buffer.full_bytes(), 0);
    assert!(buffer.drain().is_empty());
}

#[test]
fn three_bit_values_are_packed_from_the_low_bit() {
    let mut buffer = ByteStreamOutBuffer::new();
    buffer.add_bits(1, 3);
    buffer.add_bits(2, 3);
    assert_eq!(buffer.full_bytes(), 0);
    buffer.add_bits(3, 3);
    assert_eq!(buffer.full_bytes(), 1);
    // bits in order: 100 010 110, the ninth bit starts a second byte
    assert_eq!(buffer.drain(), vec![0b1101_0001, 0b0000_0000]);
    assert_eq!(buffer.full_bytes(), 0);
    assert!(buffer.drain().is_empty());
}

#[test]
fn partial_byte_is_padded_with_zero_bits() {
    let mut buffer = ByteStreamOutBuffer::new();
    buffer.add_bits(0b111, 3);
    assert_eq!(buffer.drain(), vec![0b0000_0111]);
}

#[test]
fn only_the_low_bits_of_a_value_are_written() {
    let mut buffer = ByteStreamOutBuffer::new();
    buffer.add_bits(0xffff, 4);
    buffer.add_bits(0, 4);
    assert_eq!(buffer.drain(), vec![0x0f]);
}

#[test]
fn single_bits_fill_a_byte() {
    let mut buffer = ByteStreamOutBuffer::new();
    for bit in [true, false, true, true, false, false, false, true] {
        buffer.add_bit(bit);
    }
    assert_eq!(buffer.full_bytes(), 1);
    assert_eq!(buffer.drain(), vec![0b1000_1101]);
}

#[test]
fn seventeen_bit_values_cross_byte_borders() {
    let mut buffer = ByteStreamOutBuffer::new();
    buffer.add_bits(0x1_5a3c, 17);
    buffer.add_bits(0x0_00ff, 17);
    assert_eq!(buffer.full_bytes(), 4);
    // 34 bits: the first value in bits 0 to 16, the second in bits 17 to 33
    let expected: u64 = 0x1_5a3c | (0xff << 17);
    assert_eq!(buffer.drain(), expected.to_le_bytes()[0..5].to_vec());
}

#[test]
fn whole_width_values_are_little_endian() {
    let mut buffer = ByteStreamOutBuffer::new();
    buffer.add_bits(0x0123_4567_89ab_cdef, 64);
    buffer.add_bits(0xdead_beef, 32);
    assert_eq!(buffer.full_bytes(), 12);
    let mut expected = 0x0123_4567_89ab_cdefu64.to_le_bytes().to_vec();
    expected.extend_from_slice(&0xdead_beefu32.to_le_bytes());
    assert_eq!(buffer.drain(), expected);
}

#[test]
fn zero_width_writes_nothing() {
    let mut buffer = ByteStreamOutBuffer::new();
    buffer.add_bits(12345, 0);
    assert!(buffer.drain().is_empty());
}

#[test]
fn bit_length_counts_binary_digits() {
    assert_eq!(bit_length_of(0), 0);
    assert_eq!(bit_length_of(1), 1);
    assert_eq!(bit_length_of(7), 3);
    assert_eq!(bit_length_of(8), 4);
    assert_eq!(bit_length_of(131071), 17);
    assert_eq!(bit_length_of(u64::MAX), 64);
}

#[test]
fn bit_size_of_data_types() {
    assert_eq!(RecordDataType::Single.bit_size(), 32);
    assert_eq!(RecordDataType::Double.bit_size(), 64);
    assert_eq!(RecordDataType::Integer { min: 0, max: 7 }.bit_size(), 3);
    assert_eq!(RecordDataType::Integer { min: 0, max: 8 }.bit_size(), 4);
    assert_eq!(RecordDataType::Integer { min: -65536, max: 65535 }.bit_size(), 17);
    assert_eq!(RecordDataType::Integer { min: 5, max: 5 }.bit_size(), 0);
    assert_eq!(RecordDataType::Integer { min: 5, max: 4 }.bit_size(), 0);
    assert_eq!(RecordDataType::Integer { min: i64::MIN, max: i64::MAX }.bit_size(), 64);
}

#[test]
fn point_bit_size_adds_the_fields() {
    let prototype = vec![
        Record { name: "x".to_string(), data_type: RecordDataType::Double },
        Record { name: "y".to_string(), data_type: RecordDataType::Single },
        Record { name: "i".to_string(), data_type: RecordDataType::Integer { min: 0, max: 7 } },
    ];
    assert_eq!(point_bit_size(&prototype), 64 + 32 + 3);
    assert_eq!(point_bit_size(&Vec::new()), 0);
}

#[test]
fn integer_is_stored_as_distance_from_min() {
    let data_type = RecordDataType::Integer { min: -4, max: 3 };
    let mut buffer = ByteStreamOutBuffer::new();
    assert_eq!(data_type.write(&RecordValue::Integer(-4), &mut buffer), Ok(()));
    assert_eq!(data_type.write(&RecordValue::Integer(3), &mut buffer), Ok(()));
    assert_eq!(data_type.write(&RecordValue::Integer(-1), &mut buffer), Ok(()));
    // stored 0, 7, 3 in three bits each: 000 111 110
    assert_eq!(buffer.drain(), vec![0b1111_1000, 0b0000_0000]);
}

#[test]
fn integer_over_the_whole_range() {
    let data_type = RecordDataType::Integer { min: i64::MIN, max: i64::MAX };
    let mut buffer = ByteStreamOutBuffer::new();
    assert_eq!(data_type.write(&RecordValue::Integer(i64::MAX), &mut buffer), Ok(()));
    assert_eq!(data_type.write(&RecordValue::Integer(i64::MIN), &mut buffer), Ok(()));
    let mut expected = u64::MAX.to_le_bytes().to_vec();
    expected.extend_from_slice(&0u64.to_le_bytes());
    assert_eq!(buffer.drain(), expected);
}

#[test]
fn floats_are_stored_as_their_bit_patterns() {
    let mut buffer = ByteStreamOutBuffer::new();
    let single = RecordValue::Single(1.5f32.to_bits());
    let double = RecordValue::Double((-2.25f64).to_bits());
    assert_eq!(RecordDataType::Single.write(&single, &mut buffer), Ok(()));
    assert_eq!(RecordDataType::Double.write(&double, &mut buffer), Ok(()));
    let mut expected = 1.5f32.to_le_bytes().to_vec();
    expected.extend_from_slice(&(-2.25f64).to_le_bytes());
    assert_eq!(buffer.drain(), expected);
}

#[test]
fn value_outside_the_type_is_refused_and_nothing_written() {
    let mut buffer = ByteStreamOutBuffer::new();
    buffer.add_bits(1, 1);
    let data_type = RecordDataType::Integer { min: 0, max: 7 };
    assert_eq!(data_type.write(&RecordValue::Integer(8), &mut buffer), Err(Unrepresentable));
    assert_eq!(data_type.write(&RecordValue::Integer(-1), &mut buffer), Err(Unrepresentable));
    assert_eq!(data_type.write(&RecordValue::Single(0), &mut buffer), Err(Unrepresentable));
    assert_eq!(
        RecordDataType::Single.write(&RecordValue::Double(0), &mut buffer),
        Err(Unrepresentable)
    );
    assert_eq!(
        RecordDataType::Double.write(&RecordValue::Integer(0), &mut buffer),
        Err(Unrepresentable)
    );
    let empty = RecordDataType::Integer { min: 3, max: 2 };
    assert_eq!(empty.write(&RecordValue::Integer(3), &mut buffer), Err(Unrepresentable));
    assert_eq!(buffer.drain(), vec![1]);
}

#[test]
fn little_endian_bytes() {
    let mut out = vec![0xaa];
    push_le(&mut out, 0x1234, 2);
    push_le(&mut out, 0x0102_0304_0506_0708, 8);
    push_le(&mut out, 0x1ff, 1);
    push_le(&mut out, 7, 0);
    assert_eq!(out, vec![0xaa, 0x34, 0x12, 8, 7, 6, 5, 4, 3, 2, 1, 0xff]);
}

#[test]
fn zeros_and_bytes_are_appended() {
    let mut out = vec![1];
    push_zeros(&mut out, 3);
    push_bytes(&mut out, &vec![9, 8]);
    push_zeros(&mut out, 0);
    assert_eq!(out, vec![1, 0, 0, 0, 9, 8]);
}

#[test]
fn section_header_layout() {
    let header = CompressedVectorSectionHeader { section_length: 0x0102, data_offset: 0x0a0b0c };
    let mut out = Vec::new();
    header.write(&mut out);
    assert_eq!(out.len() as u64, SECTION_HEADER_SIZE);
    let mut expected = vec![1u8, 0, 0, 0, 0, 0, 0, 0];
    expected.extend_from_slice(&0x0102u64.to_le_bytes());
    expected.extend_from_slice(&0x0a0b0cu64.to_le_bytes());
    expected.extend_from_slice(&[0u8; 8]);
    assert_eq!(out, expected);
}

#[test]
fn packet_header_layout() {
    let header =
        DataPacketHeader { comp_restart_flag: false, packet_length: 12, bytestream_count: 3 };
    let mut out = Vec::new();
    header.write(&mut out);
    assert_eq!(out.len(), PACKET_HEADER_SIZE);
    assert_eq!(out, vec![1, 0, 11, 0, 3, 0]);
    let restart =
        DataPacketHeader { comp_restart_flag: true, packet_length: 65536, bytestream_count: 4660 };
    let mut out = vec![7];
    restart.write(&mut out);
    assert_eq!(out, vec![7, 1, 1, 0xff, 0xff, 0x34, 0x12]);
}

#[test]
fn packet_is_padded_to_a_multiple_of_four() {
    // header 6, size table 2, payload 1: 9 bytes, padded to 12
    assert_eq!(
        frame_packet(&vec![vec![0x5a]]).unwrap(),
        vec![1, 0, 11, 0, 1, 0, 1, 0, 0x5a, 0, 0, 0]
    );
    // header 6, size table 4, payload 2 + 0: already 12
    assert_eq!(
        frame_packet(&vec![vec![1, 2], vec![]]).unwrap(),
        vec![1, 0, 11, 0, 2, 0, 2, 0, 0, 0, 1, 2]
    );
    // header 6, size table 4, payload 3 + 2: 15 bytes, padded to 16
    assert_eq!(
        frame_packet(&vec![vec![1, 2, 3], vec![4, 5]]).unwrap(),
        vec![1, 0, 15, 0, 2, 0, 3, 0, 2, 0, 1, 2, 3, 4, 5, 0]
    );
    // no streams at all: header 6, padded to 8
    assert_eq!(frame_packet(&Vec::new()).unwrap(), vec![1, 0, 7, 0, 0, 0, 0, 0]);
}

#[test]
fn packet_length_ceiling() {
    // 6 + 2 + 65524 = 65532: the longest packet
    let packet = frame_packet(&vec![vec![0xee; 65524]]).unwrap();
    assert_eq!(packet.len(), 65532);
    assert_eq!(&packet[0..8], &[1, 0, 0xfb, 0xff, 1, 0, 0xf4, 0xff]);
    // one byte more is padded to 65536
    assert_eq!(
        frame_packet(&vec![vec![0xee; 65525]]),
        Err(Error::Internal { fault: InternalFault::PacketLength })
    );
    assert_eq!(
        frame_packet(&vec![vec![0; 70000]]),
        Err(Error::Internal { fault: InternalFault::PacketLength })
    );
    assert_eq!(
        frame_packet(&vec![Vec::new(); 40000]),
        Err(Error::Internal { fault: InternalFault::PacketLength })
    );
    assert_eq!(
        frame_packet(&vec![Vec::new(); 70000]),
        Err(Error::Internal { fault: InternalFault::PacketLength })
    );
}
