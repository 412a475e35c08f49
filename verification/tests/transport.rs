use thrift_wire::transport::{Poll, ReadTransport, TransportError, TransportKind, WriteTransport};

#[test]
fn a_frame_is_four_bytes_of_length_and_the_payload() {
    for size in [0usize, 1, 5, 255, 256, 70_000] {
        let payload: Vec<u8> = (0..size).map(|i| (i % 251) as u8).collect();
        let mut writer = WriteTransport::new(TransportKind::Framed);
        writer.write(&payload);
        assert_eq!(writer.pending_len(), size);
        let wire = writer.flush().unwrap();
        assert_eq!(wire.len(), 4 + size);
        assert_eq!(&wire[..4], &(size as u32).to_be_bytes());
        assert_eq!(&wire[4..], &payload[..]);
        assert_eq!(writer.pending_len(), 0);
    }
}

#[test]
fn a_flush_covers_all_writes_since_the_last_flush() {
    let mut writer = WriteTransport::new(TransportKind::Framed);
    writer.write(&[1, 2]);
    writer.write(&[]);
    writer.write(&[3]);
    assert_eq!(writer.flush().unwrap(), vec![0, 0, 0, 3, 1, 2, 3]);
    writer.write(&[9]);
    assert_eq!(writer.flush().unwrap(), vec![0, 0, 0, 1, 9]);
    assert_eq!(writer.flush().unwrap(), vec![0, 0, 0, 0]);
}

#[test]
fn a_buffered_flush_adds_nothing() {
    let mut writer = WriteTransport::new(TransportKind::Buffered);
    assert_eq!(writer.kind_of(), TransportKind::Buffered);
    writer.write(&[1, 2]);
    writer.write(&[3]);
    assert_eq!(writer.flush().unwrap(), vec![1, 2, 3]);
    assert_eq!(writer.flush().unwrap(), Vec::<u8>::new());
}

#[test]
fn reading_back_yields_the_payload_before_the_next_frame_is_seen() {
    let mut writer = WriteTransport::new(TransportKind::Framed);
    writer.write(&[10, 11, 12]);
    let mut wire = writer.flush().unwrap();
    writer.write(&[20, 21]);
    wire.extend_from_slice(&writer.flush().unwrap());

    let mut reader = ReadTransport::new(TransportKind::Framed);
    assert_eq!(reader.poll(), Ok(Poll::Need(4)));
    reader.supply(&wire[..2]);
    assert_eq!(reader.poll(), Ok(Poll::Need(2)));
    reader.supply(&wire[2..4]);
    assert_eq!(reader.poll(), Ok(Poll::Need(3)));
    reader.supply(&wire[4..6]);
    assert_eq!(reader.poll(), Ok(Poll::Need(1)));
    reader.supply(&wire[6..]);
    assert_eq!(reader.poll(), Ok(Poll::Message(4, 7)));
    assert_eq!(&reader.inbox()[4..7], &[10, 11, 12]);
    reader.take(7);
    assert_eq!(reader.poll(), Ok(Poll::Message(4, 6)));
    assert_eq!(&reader.inbox()[4..6], &[20, 21]);
    reader.take(6);
    assert_eq!(reader.poll(), Ok(Poll::Need(4)));
    assert_eq!(reader.close(), Ok(()));
}

#[test]
fn an_empty_frame_is_whole_at_once() {
    let mut reader = ReadTransport::new(TransportKind::Framed);
    reader.supply(&[0, 0, 0, 0]);
    assert_eq!(reader.poll(), Ok(Poll::Message(4, 4)));
}

#[test]
fn a_negative_frame_length_is_refused() {
    let mut reader = ReadTransport::new(TransportKind::Framed);
    reader.supply(&[0x80, 0, 0, 0, 1]);
    assert_eq!(reader.poll(), Err(TransportError::BadFrameSize));
    let mut reader = ReadTransport::new(TransportKind::Framed);
    reader.supply(&[0x7F, 0xFF, 0xFF, 0xFF]);
    assert_eq!(reader.poll(), Ok(Poll::Need(0x7FFF_FFFF)));
}

#[test]
fn the_end_of_the_stream_inside_a_frame_is_an_error() {
    let mut reader = ReadTransport::new(TransportKind::Framed);
    assert_eq!(reader.close(), Ok(()));
    reader.supply(&[0, 0, 0, 2, 1]);
    assert_eq!(reader.close(), Err(TransportError::UnexpectedEnd));
}

#[test]
fn a_buffered_reader_offers_all_it_has() {
    let mut reader = ReadTransport::new(TransportKind::Buffered);
    assert_eq!(reader.kind_of(), TransportKind::Buffered);
    assert_eq!(reader.poll(), Ok(Poll::Need(1)));
    reader.supply(&[1, 2, 3]);
    assert_eq!(reader.poll(), Ok(Poll::Message(0, 3)));
    reader.take(2);
    assert_eq!(reader.inbox(), &[3]);
}
