use swegrep::protobuf::{
    connect_frame_decode, connect_frame_encode, decode_varint, extract_strings, gzip_compress,
    gzip_decompress, ProtobufEncoder,
};

#[test]
fn varint_encode_decode() {
    assert_eq!(ProtobufEncoder::varint(0), b"\x00");
    assert_eq!(ProtobufEncoder::varint(1), b"\x01");
    assert_eq!(ProtobufEncoder::varint(127), b"\x7f");
    assert_eq!(ProtobufEncoder::varint(128), b"\x80\x01");
    assert_eq!(ProtobufEncoder::varint(300), b"\xac\x02");

    assert_eq!(decode_varint(b"\x00", 0), (0, 1));
    assert_eq!(decode_varint(b"\xac\x02", 0), (300, 2));
}

#[test]
fn protobuf_encoder_writes_expected_bytes() {
    let mut encoder = ProtobufEncoder::new();
    encoder.write_varint(1, 150);
    assert_eq!(encoder.to_bytes(), b"\x08\x96\x01");

    let mut encoder = ProtobufEncoder::new();
    encoder.write_string(2, "hello");
    assert_eq!(encoder.to_bytes(), b"\x12\x05hello");

    let mut encoder = ProtobufEncoder::new();
    encoder.write_bytes(3, b"\x01\x02");
    assert_eq!(encoder.to_bytes(), b"\x1a\x02\x01\x02");

    let mut sub = ProtobufEncoder::new();
    sub.write_varint(1, 10);
    let mut encoder = ProtobufEncoder::new();
    encoder.write_message(4, &sub);
    assert_eq!(encoder.to_bytes(), b"\x22\x02\x08\x0a");
}

#[test]
fn connect_frame_encode_decode_round_trips() {
    let data = b"my test protobuf payload";

    let frame = connect_frame_encode(data, true);
    assert_eq!(frame[0], 1);
    assert_eq!(connect_frame_decode(&frame), vec![data.to_vec()]);

    let frame = connect_frame_encode(data, false);
    assert_eq!(frame[0], 0);
    assert_eq!(connect_frame_decode(&frame), vec![data.to_vec()]);
}

#[test]
fn extract_strings_filters_short_values() {
    let mut encoder = ProtobufEncoder::new();
    encoder.write_string(1, "short");
    encoder.write_string(2, "longer_string_here");
    encoder.write_varint(3, 99999);
    encoder.write_string(4, "another_long_one");

    let strings = extract_strings(&encoder.to_bytes());
    assert!(strings.contains(&"longer_string_here".to_string()));
    assert!(strings.contains(&"another_long_one".to_string()));
    assert!(!strings.contains(&"short".to_string()));
}

#[test]
fn encoder_calls_can_be_chained() {
    let mut encoder = ProtobufEncoder::new();
    encoder.write_varint(1, 1).write_string(2, "ab").write_bytes(3, b"c");
    assert_eq!(encoder.to_bytes(), b"\x08\x01\x12\x02ab\x1a\x01c");
}

#[test]
fn varints_round_trip_at_the_limits() {
    for value in [0u64, 1, 127, 128, 16383, 16384, u32::MAX as u64, u64::MAX] {
        let data = ProtobufEncoder::varint(value);
        assert_eq!(decode_varint(&data, 0), (value, data.len()));
    }
    assert_eq!(ProtobufEncoder::varint(u64::MAX).len(), 10);
}

#[test]
fn decode_varint_starts_at_the_offset_and_stops_at_the_end() {
    assert_eq!(decode_varint(b"\xff\xac\x02", 1), (300, 3));
    assert_eq!(decode_varint(b"\xac", 0), (44, 1));
    assert_eq!(decode_varint(b"", 0), (0, 0));
}

#[test]
fn gzip_gives_back_what_it_packed() {
    let packed = gzip_compress(b"some data, some data, some data").unwrap();
    assert_ne!(packed, b"some data, some data, some data".to_vec());
    assert_eq!(gzip_decompress(&packed).unwrap(), b"some data, some data, some data".to_vec());
    assert!(gzip_decompress(b"no gzip stream").is_err());
}

#[test]
fn frames_follow_each_other_and_a_cut_off_one_is_dropped() {
    let mut data = connect_frame_encode(b"first", false);
    data.extend(connect_frame_encode(b"second", true));
    let whole = data.len();
    data.extend(connect_frame_encode(b"third", false));
    assert_eq!(
        connect_frame_decode(&data),
        vec![b"first".to_vec(), b"second".to_vec(), b"third".to_vec()]
    );
    assert_eq!(
        connect_frame_decode(&data[..whole + 7]),
        vec![b"first".to_vec(), b"second".to_vec()]
    );
    assert_eq!(connect_frame_decode(b"\x00\x00\x00"), Vec::<Vec<u8>>::new());
}

#[test]
fn payload_that_is_no_gzip_stream_is_taken_as_it_is() {
    assert_eq!(connect_frame_decode(b"\x01\x00\x00\x00\x02ab"), vec![b"ab".to_vec()]);
    assert_eq!(connect_frame_encode(b"ab", false), b"\x00\x00\x00\x00\x02ab".to_vec());
}

#[test]
fn extract_strings_skips_fixed_width_fields_and_bad_text() {
    let mut data = vec![0x09, 1, 2, 3, 4, 5, 6, 7, 8];
    data.extend([0x0d, 1, 2, 3, 4]);
    let mut encoder = ProtobufEncoder::new();
    encoder.write_bytes(2, b"\xff\xfe\xfd\xfc\xfb\xfa\xf9");
    encoder.write_string(3, "seven!!");
    data.extend(encoder.to_bytes());
    assert_eq!(extract_strings(&data), vec!["seven!!".to_string()]);
}

#[test]
fn plain_and_compressed_frames_follow_each_other() {
    let mut stream = connect_frame_encode(b"first", true);
    stream.extend(connect_frame_encode(b"second", false));
    stream.extend(connect_frame_encode(b"", true));
    let cut = connect_frame_encode(b"third", true);
    stream.extend(&cut[..cut.len() - 1]);
    assert_eq!(
        connect_frame_decode(&stream),
        vec![b"first".to_vec(), b"second".to_vec(), Vec::new()]
    );
}
