use hearme::format::MAX_PACKET_SIZE;
use hearme::wire::{
    frame_packet, parse_header, writer_action, BusEvent, FramingError, PacketReader,
    ReaderStep, WriterAction,
};

#[test]
fn framed_packet_starts_with_its_little_endian_length() {
    let packet = vec![7u8; 300];
    let bytes = frame_packet(&packet).unwrap();
    assert_eq!(bytes.len(), 302);
    assert_eq!(&bytes[..2], &[0x2C, 0x01]);
    assert_eq!(&bytes[2..], &packet[..]);
}

#[test]
fn framing_accepts_one_byte_and_the_largest_packet() {
    assert_eq!(frame_packet(&[9]).unwrap(), vec![1, 0, 9]);
    let largest = vec![1u8; MAX_PACKET_SIZE];
    let bytes = frame_packet(&largest).unwrap();
    assert_eq!(&bytes[..2], &[0xA0, 0x0F]);
    assert_eq!(bytes.len(), MAX_PACKET_SIZE + 2);
}

#[test]
fn framing_refuses_empty_and_oversized_packets() {
    assert_eq!(frame_packet(&[]), Err(FramingError::EmptyPacket));
    let too_big = vec![0u8; MAX_PACKET_SIZE + 1];
    assert_eq!(frame_packet(&too_big), Err(FramingError::OversizedPacket));
}

#[test]
fn header_parsing_is_little_endian_and_bounded() {
    assert_eq!(parse_header([0x2C, 0x01]), Ok(300));
    assert_eq!(parse_header([1, 0]), Ok(1));
    assert_eq!(parse_header([0xA0, 0x0F]), Ok(4000));
    assert_eq!(parse_header([0, 0]), Err(FramingError::EmptyPacket));
    assert_eq!(parse_header([0xA1, 0x0F]), Err(FramingError::OversizedPacket));
    assert_eq!(parse_header([0xFF, 0xFF]), Err(FramingError::OversizedPacket));
}

#[test]
fn reader_reads_back_what_was_framed() {
    let packets: Vec<Vec<u8>> = vec![vec![1, 2, 3], vec![42; 250], vec![0xFF]];
    let mut stream = Vec::new();
    for p in &packets {
        stream.extend(frame_packet(p).unwrap());
    }
    let mut reader = PacketReader::new();
    let mut at = 0usize;
    let mut received = Vec::new();
    while at < stream.len() {
        let want = reader.bytes_wanted();
        let chunk = &stream[at..at + want];
        at += want;
        match reader.accept(chunk) {
            ReaderStep::Continue => {}
            ReaderStep::Packet(p) => received.push(p),
            ReaderStep::Invalid(e) => panic!("unexpected {:?}", e),
        }
    }
    assert_eq!(received, packets);
    assert_eq!(reader.bytes_wanted(), 2);
}

#[test]
fn reader_ends_on_a_zero_length_header() {
    let mut reader = PacketReader::new();
    assert_eq!(reader.bytes_wanted(), 2);
    match reader.accept(&[0, 0]) {
        ReaderStep::Invalid(e) => assert_eq!(e, FramingError::EmptyPacket),
        _ => panic!("a zero length must end the session"),
    }
}

#[test]
fn reader_ends_on_an_oversized_header() {
    let mut reader = PacketReader::new();
    match reader.accept(&[0xA1, 0x0F]) {
        ReaderStep::Invalid(e) => assert_eq!(e, FramingError::OversizedPacket),
        _ => panic!("an oversized length must end the session"),
    }
}

#[test]
fn writer_frames_packets_and_skips_lag() {
    match writer_action(BusEvent::Packet(&[5, 6])) {
        WriterAction::Write(bytes) => assert_eq!(bytes, vec![2, 0, 5, 6]),
        _ => panic!("a packet must be written"),
    }
    match writer_action(BusEvent::Lagged { skipped: 12, queued: 50 }) {
        WriterAction::Resume { skipped, discard } => {
            assert_eq!(skipped, 12);
            assert_eq!(discard, 49);
        }
        _ => panic!("a lag must be skipped"),
    }
    match writer_action(BusEvent::Lagged { skipped: 3, queued: 1 }) {
        WriterAction::Resume { skipped, discard } => {
            assert_eq!(skipped, 3);
            assert_eq!(discard, 0);
        }
        _ => panic!("a lag must be skipped"),
    }
    match writer_action(BusEvent::Lagged { skipped: 7, queued: 0 }) {
        WriterAction::Resume { discard, .. } => assert_eq!(discard, 0),
        _ => panic!("a lag must be skipped"),
    }
    assert!(matches!(writer_action(BusEvent::Closed), WriterAction::Finish));
    match writer_action(BusEvent::Packet(&[])) {
        WriterAction::Discard(e) => assert_eq!(e, FramingError::EmptyPacket),
        _ => panic!("an empty packet must not be written"),
    }
}
