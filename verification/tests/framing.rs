use rust_croc::proto::croc_raw::{
    append_bytes, bytes_eq, check_magic, frame, payload_length, CrocProto, FrameReader,
    ProtoError, ReadAction, ReadState,
};

#[test]
fn frame_starts_with_magic_and_length() {
    let bytes = frame(b"hello").unwrap();
    assert_eq!(bytes, b"croc\x05\x00\x00\x00hello".to_vec());
}

#[test]
fn the_empty_message_has_a_frame() {
    assert_eq!(frame(b"").unwrap(), b"croc\x00\x00\x00\x00".to_vec());
}

#[test]
fn the_length_is_little_endian() {
    let msg = vec![7u8; 0x012345];
    let bytes = frame(&msg).unwrap();
    assert_eq!(&bytes[4..8], &[0x45, 0x23, 0x01, 0x00]);
    assert_eq!(bytes.len(), 8 + 0x012345);
    assert_eq!(payload_length(&bytes[4..8]), 0x012345);
    assert_eq!(payload_length(&[0xff, 0xff, 0xff, 0xff]), u32::MAX);
    assert_eq!(payload_length(&[0, 0, 0, 1]), 0x0100_0000);
}

#[test]
fn the_magic_is_croc() {
    assert_eq!(check_magic(b"croc"), Ok(()));
    assert_eq!(check_magic(b"cro"), Err(ProtoError::BadMagic));
    assert_eq!(check_magic(b"Croc"), Err(ProtoError::BadMagic));
    assert_eq!(check_magic(b"ping"), Err(ProtoError::BadMagic));
    assert_eq!(check_magic(b"crocc"), Err(ProtoError::BadMagic));
}

#[test]
fn reader_delivers_framed_payload() {
    let bytes = frame(b"hello").unwrap();
    let mut reader = FrameReader::new(false);
    assert_eq!(reader.wanted(), 4);
    assert!(matches!(reader.on_bytes(bytes[0..4].to_vec()), ReadAction::Read { count: 4 }));
    assert_eq!(reader.wanted(), 4);
    assert!(matches!(reader.on_bytes(bytes[4..8].to_vec()), ReadAction::Read { count: 5 }));
    assert_eq!(reader.wanted(), 5);
    match reader.on_bytes(bytes[8..].to_vec()) {
        ReadAction::Deliver { message } => assert_eq!(message, b"hello".to_vec()),
        other => panic!("unexpected action {:?}", other),
    }
    assert_eq!(reader.state, ReadState::Magic);
    assert_eq!(reader.wanted(), 4);
}

#[test]
fn reader_stops_for_good_on_bad_magic() {
    let mut reader = FrameReader::new(false);
    assert!(matches!(
        reader.on_bytes(b"ping".to_vec()),
        ReadAction::Stop { error: Some(ProtoError::BadMagic) }
    ));
    assert_eq!(reader.wanted(), 0);
    assert_eq!(reader.state, ReadState::Closed { error: Some(ProtoError::BadMagic) });
    // whatever comes later gets the same answer
    assert!(matches!(
        reader.on_bytes(b"croc".to_vec()),
        ReadAction::Stop { error: Some(ProtoError::BadMagic) }
    ));
    assert!(matches!(
        reader.on_failure(),
        ReadAction::Stop { error: Some(ProtoError::BadMagic) }
    ));
    assert_eq!(reader.wanted(), 0);
}

#[test]
fn reader_refuses_a_read_of_the_wrong_size() {
    let mut reader = FrameReader::new(false);
    assert!(matches!(
        reader.on_bytes(b"cro".to_vec()),
        ReadAction::Stop { error: Some(ProtoError::BadFrameLength) }
    ));
    let mut reader = FrameReader::new(false);
    reader.on_bytes(b"croc".to_vec());
    reader.on_bytes(vec![2, 0, 0, 0]);
    assert!(matches!(
        reader.on_bytes(vec![1, 2, 3]),
        ReadAction::Stop { error: Some(ProtoError::BadFrameLength) }
    ));
}

#[test]
fn reader_closes_without_fault_when_the_stream_ends() {
    let mut reader = FrameReader::new(false);
    reader.on_bytes(b"croc".to_vec());
    assert!(matches!(reader.on_failure(), ReadAction::Stop { error: None }));
    assert_eq!(reader.wanted(), 0);
    assert!(matches!(reader.on_bytes(b"croc".to_vec()), ReadAction::Stop { error: None }));
}

#[test]
fn pings_are_dropped_only_where_asked() {
    let ping = frame(&[1u8]).unwrap();
    let mut dropping = FrameReader::new(true);
    dropping.on_bytes(ping[0..4].to_vec());
    dropping.on_bytes(ping[4..8].to_vec());
    assert!(matches!(dropping.on_bytes(ping[8..].to_vec()), ReadAction::Read { count: 4 }));
    let mut plain = FrameReader::new(false);
    plain.on_bytes(ping[0..4].to_vec());
    plain.on_bytes(ping[4..8].to_vec());
    match plain.on_bytes(ping[8..].to_vec()) {
        ReadAction::Deliver { message } => assert_eq!(message, vec![1u8]),
        other => panic!("unexpected action {:?}", other),
    }
    // another single byte is a message like any other
    let two = frame(&[2u8]).unwrap();
    let mut dropping = FrameReader::new(true);
    dropping.on_bytes(two[0..4].to_vec());
    dropping.on_bytes(two[4..8].to_vec());
    assert!(matches!(dropping.on_bytes(two[8..].to_vec()), ReadAction::Deliver { .. }));
}

#[test]
fn an_empty_payload_is_delivered() {
    let mut reader = FrameReader::new(true);
    reader.on_bytes(b"croc".to_vec());
    assert!(matches!(reader.on_bytes(vec![0, 0, 0, 0]), ReadAction::Read { count: 0 }));
    match reader.on_bytes(vec![]) {
        ReadAction::Deliver { message } => assert!(message.is_empty()),
        other => panic!("unexpected action {:?}", other),
    }
}

#[test]
fn byte_helpers() {
    let mut buf = vec![1u8, 2];
    append_bytes(&mut buf, &[3, 4]);
    assert_eq!(buf, vec![1, 2, 3, 4]);
    assert!(bytes_eq(b"abc", b"abc"));
    assert!(!bytes_eq(b"abc", b"abd"));
    assert!(!bytes_eq(b"abc", b"ab"));
    assert!(bytes_eq(b"", b""));
}

#[test]
fn a_connection_reads_frame_by_frame() {
    let mut input = frame(b"hello").unwrap();
    input.extend(frame(b"").unwrap());
    input.extend(b"croc\x02\x00\x00\x00hi and more");
    let mut connection = CrocProto::from_stream(input);
    assert_eq!(connection.read(), Ok(b"hello".to_vec()));
    assert_eq!(connection.read(), Ok(vec![]));
    assert_eq!(connection.read(), Ok(b"hi".to_vec()));
    assert_eq!(connection.unread, b" and more".to_vec());
}

#[test]
fn a_bad_magic_costs_four_bytes_and_no_more() {
    let mut connection = CrocProto::from_stream(b"ping\x05\x00\x00\x00hello".to_vec());
    assert_eq!(connection.read(), Err(ProtoError::BadMagic));
    assert_eq!(connection.unread, b"\x05\x00\x00\x00hello".to_vec());
    let mut connection = CrocProto::from_stream(b"Croc".to_vec());
    assert_eq!(connection.read(), Err(ProtoError::BadMagic));
    assert!(connection.unread.is_empty());
}

#[test]
fn input_that_ends_within_a_frame_fails_the_read() {
    for input in [&b"cro"[..], &b"croc\x05\x00"[..], &b"croc\x05\x00\x00\x00hell"[..], &b""[..]] {
        let mut connection = CrocProto::from_stream(input.to_vec());
        assert_eq!(connection.read(), Err(ProtoError::BadFrameLength));
        assert!(connection.unread.is_empty());
    }
}

#[test]
fn peeking_reads_nothing() {
    let connection = CrocProto::from_stream(b"ping and more".to_vec());
    assert_eq!(connection.peek(4), b"ping".to_vec());
    assert_eq!(connection.peek(0), Vec::<u8>::new());
    assert_eq!(connection.peek(100), b"ping and more".to_vec());
    assert_eq!(connection.unread, b"ping and more".to_vec());
}
