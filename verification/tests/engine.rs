//! The packet layer, step by step.
use async_io_packet::{
    AsyncIoPacket, ChecksumPacketDataTransform, ErrorClass, FillEvent, FlushAction, FlushEvent,
    HandshakeEvent, NoisePacketDataTransform, NoopPacketDataTransform, OtpPacketDataTransform,
    PacketDataTransform, PacketError, Phase, ReadAction, ShutdownAction, TransformError,
    WriteAction, WriteEvent,
};
use rand::rngs::StdRng;

/// A transform that does what the tests need.
#[derive(Debug, Default)]
struct Custom {
    handshaking: bool,
    opens: bool,
    poisoned: bool,
    poisoned_after_step: bool,
    limit: Option<usize>,
    fail_step: bool,
    fail_bytes: bool,
    answer: Option<Vec<u8>>,
    fail_write_at: Option<usize>,
    writes: usize,
}

fn refused() -> TransformError {
    TransformError::Other("refused".to_string())
}

impl PacketDataTransform for Custom {
    fn handshaking(&self) -> bool {
        self.handshaking
    }

    fn need_to_start_handshake(&mut self) -> bool {
        self.opens
    }

    fn poisoned(&self) -> bool {
        self.poisoned
    }

    fn max_payload_bytes(&self) -> Option<usize> {
        self.limit
    }

    fn handshake_step(&mut self, _msg: &[u8]) -> Result<(), TransformError> {
        if self.fail_step {
            return Err(refused());
        }
        self.opens = false;
        self.poisoned = self.poisoned_after_step;
        Ok(())
    }

    fn handshake_bytes(&mut self) -> Result<Option<Vec<u8>>, TransformError> {
        if self.fail_bytes {
            return Err(refused());
        }
        Ok(self.answer.take())
    }

    fn read_payload(&mut self, msg: &[u8]) -> Result<Vec<u8>, TransformError> {
        if msg.first() == Some(&0xEE) {
            return Err(refused());
        }
        Ok(msg.to_vec())
    }

    fn write_message(&mut self, payload: &[u8]) -> Result<Vec<u8>, TransformError> {
        if self.fail_write_at == Some(self.writes) {
            return Err(refused());
        }
        self.writes += 1;
        Ok(payload.to_vec())
    }
}

fn filled(bytes: &[u8]) -> FillEvent {
    FillEvent::Filled(bytes.to_vec())
}

#[test]
fn a_write_asks_for_one_big_write() {
    let mut layer = AsyncIoPacket::new(NoopPacketDataTransform {});
    let step = layer.begin_write(&[1, 2, 3]);
    assert!(!step.wake);
    match step.action {
        WriteAction::Write(bytes) => assert_eq!(bytes, [0, 3, 0, 1, 2, 3]),
        other => panic!("{:?}", other),
    }
    // part of it goes out
    let step = layer.write_after_write(WriteEvent::Done(4), 3);
    assert!(step.wake);
    assert!(matches!(step.action, WriteAction::Ready(3)));
    // the rest goes out before the next message
    let step = layer.begin_write(&[9]);
    match step.action {
        WriteAction::Write(bytes) => assert_eq!(bytes, [2, 3, 0, 1, 0, 9]),
        other => panic!("{:?}", other),
    }
    let step = layer.write_after_write(WriteEvent::Done(6), 1);
    assert!(!step.wake);
    assert!(matches!(step.action, WriteAction::Ready(1)));
    assert!(matches!(layer.begin_flush().action, FlushAction::FlushIo));
}

#[test]
fn an_empty_write_does_nothing() {
    let mut layer = AsyncIoPacket::new(NoopPacketDataTransform {});
    let step = layer.begin_write(&[]);
    assert!(!step.wake);
    assert!(matches!(step.action, WriteAction::Ready(0)));
    assert!(matches!(layer.begin_flush().action, FlushAction::FlushIo));
}

#[test]
fn a_write_that_cannot_go_out_stays_queued() {
    let mut layer = AsyncIoPacket::new(NoopPacketDataTransform {});
    layer.begin_write(&[5]);
    let step = layer.write_after_write(WriteEvent::Pending, 1);
    assert!(!step.wake);
    assert!(matches!(step.action, WriteAction::Wait));
    let step = layer.write_after_write(WriteEvent::Failed, 1);
    assert!(!step.wake);
    assert!(matches!(step.action, WriteAction::IoError));
    match layer.begin_flush().action {
        FlushAction::Write(bytes) => assert_eq!(bytes, [0, 1, 0, 5]),
        other => panic!("{:?}", other),
    }
}

#[test]
fn a_flush_writes_everything_first() {
    let mut layer = AsyncIoPacket::new(NoopPacketDataTransform {});
    layer.begin_write(&[5]);
    assert!(!layer.begin_flush().wake);
    let step = layer.flush_after_write(WriteEvent::Pending);
    assert!(!step.wake && matches!(step.action, FlushAction::Wait));
    let step = layer.flush_after_write(WriteEvent::Done(3));
    assert!(step.wake && matches!(step.action, FlushAction::Wait));
    let step = layer.flush_after_write(WriteEvent::Failed);
    assert!(!step.wake && matches!(step.action, FlushAction::IoError));
    match layer.begin_flush().action {
        FlushAction::Write(bytes) => assert_eq!(bytes, [5]),
        other => panic!("{:?}", other),
    }
    let step = layer.flush_after_write(WriteEvent::Done(1));
    assert!(!step.wake && matches!(step.action, FlushAction::FlushIo));
}

#[test]
fn long_data_is_written_in_chunks() {
    let mut layer = AsyncIoPacket::new(Custom {
        limit: Some(2),
        ..Custom::default()
    });
    match layer.begin_write(&[1, 2, 3, 4, 5]).action {
        WriteAction::Write(bytes) => {
            assert_eq!(bytes, [0, 2, 0, 1, 2, 0, 2, 0, 3, 4, 0, 1, 0, 5])
        }
        other => panic!("{:?}", other),
    }
}

#[test]
fn chunks_before_a_refused_one_stay() {
    let mut layer = AsyncIoPacket::new(Custom {
        limit: Some(2),
        fail_write_at: Some(1),
        ..Custom::default()
    });
    match layer.begin_write(&[1, 2, 3]).action {
        WriteAction::Fail(e) => {
            assert!(matches!(e, PacketError::Message(_)));
            assert_eq!(e.message(), "refused");
            assert_eq!(e.class(), ErrorClass::Other);
        }
        other => panic!("{:?}", other),
    }
    match layer.begin_flush().action {
        FlushAction::Write(bytes) => assert_eq!(bytes, [0, 2, 0, 1, 2]),
        other => panic!("{:?}", other),
    }
}

#[test]
fn a_write_waits_for_the_handshake() {
    let mut layer = AsyncIoPacket::new(Custom {
        handshaking: true,
        ..Custom::default()
    });
    let step = layer.begin_write(&[1]);
    assert!(!step.wake);
    assert!(matches!(step.action, WriteAction::Handshake));
    for event in [HandshakeEvent::Pending, HandshakeEvent::Ready] {
        let step = layer.write_after_handshake(event);
        assert!(step.wake);
        assert!(matches!(step.action, WriteAction::Wait));
    }
    let step = layer.write_after_handshake(HandshakeEvent::Failed);
    assert!(!step.wake);
    assert!(matches!(step.action, WriteAction::IoError));
    assert!(matches!(layer.begin_flush().action, FlushAction::FlushIo));
}

#[test]
fn a_read_hands_out_messages() {
    let mut layer = AsyncIoPacket::new(NoopPacketDataTransform {});
    let step = layer.begin_read();
    assert!(!step.wake);
    assert!(matches!(step.action, ReadAction::Fill));
    // two messages, and part of a third
    let step = layer.read_after_fill(filled(&[0, 1, 0, 7, 0, 2, 0, 8, 9, 0, 2, 0, 1]), 100);
    assert_eq!(step.output, [7, 8, 9]);
    assert!(!step.wake);
    assert!(matches!(step.action, ReadAction::Ready));
    // the third is not complete yet
    let step = layer.read_after_fill(FillEvent::Pending, 100);
    assert!(step.output.is_empty());
    assert!(step.wake);
    assert!(matches!(step.action, ReadAction::Wait));
    let step = layer.read_after_fill(filled(&[2]), 100);
    assert_eq!(step.output, [1, 2]);
    assert!(matches!(step.action, ReadAction::Ready));
    // nothing is left
    let step = layer.read_after_fill(FillEvent::Pending, 100);
    assert!(!step.wake);
    assert!(matches!(step.action, ReadAction::Wait));
    let step = layer.read_after_fill(FillEvent::Failed, 100);
    assert!(!step.wake);
    assert!(matches!(step.action, ReadAction::IoError));
}

#[test]
fn what_does_not_fit_is_kept() {
    let mut layer = AsyncIoPacket::new(NoopPacketDataTransform {});
    let step = layer.read_after_fill(filled(&[0, 5, 0, 1, 2, 3, 4, 5, 0, 1, 0, 6]), 2);
    assert_eq!(step.output, [1, 2]);
    assert!(matches!(step.action, ReadAction::Ready));
    let step = layer.read_after_fill(FillEvent::Pending, 2);
    assert_eq!(step.output, [3, 4]);
    assert!(matches!(step.action, ReadAction::Ready));
    let step = layer.read_after_fill(FillEvent::Pending, 2);
    assert_eq!(step.output, [5, 6]);
    assert!(matches!(step.action, ReadAction::Ready));
    let step = layer.read_after_fill(FillEvent::Pending, 2);
    assert!(step.output.is_empty());
    assert!(matches!(step.action, ReadAction::Wait));
}

#[test]
fn a_refused_message_stays() {
    let mut layer = AsyncIoPacket::new(ChecksumPacketDataTransform {});
    for _ in 0..2 {
        let step = layer.read_after_fill(filled(&[]), 10);
        assert!(step.output.is_empty());
    }
    let step = layer.read_after_fill(filled(&[0, 5, 0, 0, 0, 0, 0, 1]), 10);
    match step.action {
        ReadAction::Fail(e) => {
            assert!(matches!(e, PacketError::Payload(_)));
            assert_eq!(e.message(), "checksum mismatch! 10001 != 0");
            assert_eq!(e.class(), ErrorClass::InvalidData);
        }
        other => panic!("{:?}", other),
    }
    let step = layer.read_after_fill(FillEvent::Pending, 10);
    assert!(matches!(step.action, ReadAction::Fail(_)));
}

#[test]
fn messages_before_a_refused_one_are_handed_out() {
    let mut layer = AsyncIoPacket::new(Custom::default());
    let step = layer.read_after_fill(filled(&[0, 1, 0, 4, 0, 1, 0, 0xEE]), 10);
    assert_eq!(step.output, [4]);
    assert!(matches!(step.action, ReadAction::Fail(_)));
}

#[test]
fn data_during_the_handshake_is_refused() {
    let mut layer = AsyncIoPacket::new(OtpPacketDataTransform::<StdRng>::server(1));
    assert!(matches!(layer.begin_read().action, ReadAction::Fill));
    // one handshake packet, then one that is not
    let step = layer.read_after_fill(filled(&[0, 1, 3, 1, 0, 1, 0, 2]), 10);
    match step.action {
        ReadAction::Fail(e) => {
            assert!(matches!(e, PacketError::DataInHandshake));
            assert_eq!(
                e.message(),
                "During handshaking, not all packets were handshake packets!"
            );
            assert_eq!(e.class(), ErrorClass::InvalidData);
        }
        other => panic!("{:?}", other),
    }
    assert!(step.output.is_empty());
}

#[test]
fn a_handshake_packet_among_data_is_refused() {
    let mut layer = AsyncIoPacket::new(NoopPacketDataTransform {});
    let step = layer.read_after_fill(filled(&[0, 1, 1, 1, 0, 1, 2, 2]), 10);
    match step.action {
        ReadAction::Fail(e) => {
            assert!(matches!(e, PacketError::HandshakeInData));
            assert_eq!(e.message(), "Not handshaking but saw handshake packets!");
            assert_eq!(e.class(), ErrorClass::InvalidData);
        }
        other => panic!("{:?}", other),
    }
}

#[test]
fn the_client_opens_the_handshake() {
    let mut layer = AsyncIoPacket::new(Custom {
        handshaking: true,
        opens: true,
        answer: Some(vec![4, 5]),
        ..Custom::default()
    });
    let step = layer.begin_read();
    assert!(!step.wake);
    match step.action {
        ReadAction::Write(phase, bytes) => {
            assert_eq!(phase, Phase::KickOff);
            assert_eq!(bytes, [0, 2, 2, 4, 5]);
        }
        other => panic!("{:?}", other),
    }
    let step = layer.read_after_write(Phase::KickOff, WriteEvent::Done(2));
    assert!(step.wake);
    assert!(matches!(step.action, ReadAction::Wait));
    // what is left goes out first
    match layer.begin_read().action {
        ReadAction::Write(phase, bytes) => {
            assert_eq!(phase, Phase::Drain);
            assert_eq!(bytes, [2, 4, 5]);
        }
        other => panic!("{:?}", other),
    }
    let step = layer.read_after_write(Phase::Drain, WriteEvent::Pending);
    assert!(step.wake && matches!(step.action, ReadAction::Wait));
    let step = layer.read_after_write(Phase::Drain, WriteEvent::Done(1));
    assert!(step.wake);
    match step.action {
        ReadAction::Write(phase, bytes) => {
            assert_eq!(phase, Phase::Drain);
            assert_eq!(bytes, [4, 5]);
        }
        other => panic!("{:?}", other),
    }
    let step = layer.read_after_write(Phase::Drain, WriteEvent::Done(2));
    assert!(step.wake && matches!(step.action, ReadAction::Fill));
    let step = layer.read_after_write(Phase::KickOff, WriteEvent::Failed);
    assert!(!step.wake && matches!(step.action, ReadAction::IoError));
}

#[test]
fn a_handshake_message_is_answered() {
    let mut layer = AsyncIoPacket::new(Custom {
        handshaking: true,
        answer: Some(vec![6]),
        ..Custom::default()
    });
    assert!(matches!(layer.begin_read().action, ReadAction::Fill));
    let step = layer.read_after_fill(filled(&[0, 1, 2, 1]), 10);
    match step.action {
        ReadAction::Write(phase, bytes) => {
            assert_eq!(phase, Phase::Reply);
            assert_eq!(bytes, [0, 1, 2, 6]);
        }
        other => panic!("{:?}", other),
    }
    let step = layer.read_after_write(Phase::Reply, WriteEvent::Done(4));
    assert!(step.wake && matches!(step.action, ReadAction::Wait));
    // no answer to the next
    let step = layer.read_after_fill(filled(&[0, 1, 2, 1]), 10);
    assert!(step.wake && matches!(step.action, ReadAction::Wait));
    // nothing at all
    let step = layer.read_after_fill(FillEvent::Pending, 10);
    assert!(step.wake && matches!(step.action, ReadAction::Wait));
}

#[test]
fn a_failed_handshake_is_reported() {
    for (fail_step, fail_bytes) in [(true, false), (false, true)] {
        for opens in [true, false] {
            let mut layer = AsyncIoPacket::new(Custom {
                handshaking: true,
                opens,
                fail_step,
                fail_bytes,
                ..Custom::default()
            });
            let step = if opens {
                layer.begin_read()
            } else {
                layer.read_after_fill(filled(&[0, 1, 2, 1]), 10)
            };
            match step.action {
                ReadAction::Fail(e) => {
                    assert!(matches!(e, PacketError::Handshake(_)));
                    assert_eq!(e.message(), "refused");
                    assert_eq!(e.class(), ErrorClass::InvalidData);
                }
                other => panic!("{:?}", other),
            }
        }
    }
}

#[test]
fn an_empty_answer_is_not_written() {
    let mut layer = AsyncIoPacket::new(Custom {
        handshaking: true,
        opens: true,
        answer: Some(vec![]),
        ..Custom::default()
    });
    let step = layer.begin_read();
    assert!(step.wake && matches!(step.action, ReadAction::Wait));
}

#[test]
fn a_transform_beyond_use_is_noticed() {
    let mut layer = AsyncIoPacket::new(Custom {
        poisoned: true,
        ..Custom::default()
    });
    assert!(matches!(
        layer.begin_write(&[1]).action,
        WriteAction::Poisoned
    ));
    assert!(matches!(
        layer.read_after_fill(filled(&[0, 1, 0, 1]), 10).action,
        ReadAction::Poisoned
    ));
    let mut layer = AsyncIoPacket::new(Custom {
        handshaking: true,
        opens: true,
        poisoned_after_step: true,
        ..Custom::default()
    });
    assert!(matches!(layer.begin_read().action, ReadAction::Poisoned));
}

#[test]
fn a_failed_noise_handshake_leaves_the_layer_beyond_use() {
    let mut layer = AsyncIoPacket::new(NoisePacketDataTransform::server(&[1; 32]).unwrap());
    let step = layer.read_after_fill(filled(&[0, 1, 2, 1]), 10);
    match step.action {
        ReadAction::Fail(e) => assert_eq!(e.message(), "input error"),
        other => panic!("{:?}", other),
    }
    assert!(matches!(
        layer.begin_write(&[1]).action,
        WriteAction::Poisoned
    ));
}

#[test]
fn a_boxed_transform_is_the_transform_in_the_box() {
    let mut boxed = Box::new(Custom {
        limit: Some(3),
        answer: Some(vec![1]),
        opens: true,
        ..Custom::default()
    });
    assert!(!PacketDataTransform::handshaking(&boxed));
    assert!(PacketDataTransform::need_to_start_handshake(&mut boxed));
    assert!(!PacketDataTransform::poisoned(&boxed));
    assert_eq!(PacketDataTransform::max_payload_bytes(&boxed), Some(3));
    PacketDataTransform::handshake_step(&mut boxed, &[]).unwrap();
    assert_eq!(
        PacketDataTransform::handshake_bytes(&mut boxed).unwrap(),
        Some(vec![1])
    );
    assert_eq!(
        PacketDataTransform::read_payload(&mut boxed, &[2]).unwrap(),
        [2]
    );
    assert_eq!(
        PacketDataTransform::write_message(&mut boxed, &[2]).unwrap(),
        [2]
    );
    let mut layer = AsyncIoPacket::new(boxed);
    match layer.begin_write(&[1, 2, 3, 4]).action {
        WriteAction::Write(bytes) => assert_eq!(bytes, [0, 3, 0, 1, 2, 3, 0, 1, 0, 4]),
        other => panic!("{:?}", other),
    }
}

#[test]
fn the_noop_transform_copies() {
    let mut noop = NoopPacketDataTransform {};
    assert!(!noop.handshaking());
    assert!(!noop.need_to_start_handshake());
    assert!(!noop.poisoned());
    assert_eq!(noop.max_payload_bytes(), None);
    noop.handshake_step(&[1]).unwrap();
    assert_eq!(noop.handshake_bytes().unwrap(), None);
    let msg = noop.write_message(b"as it is").unwrap();
    assert_eq!(msg, b"as it is");
    assert_eq!(noop.read_payload(&msg).unwrap(), b"as it is");
}

#[test]
fn a_handshake_message_may_arrive_in_pieces() {
    let mut layer = AsyncIoPacket::new(Custom {
        handshaking: true,
        answer: Some(vec![6]),
        ..Custom::default()
    });
    for piece in [&[0, 1][..], &[3, 1], &[0, 2, 2], &[5]] {
        let step = layer.read_after_fill(filled(piece), 10);
        assert!(step.wake && step.output.is_empty());
        assert!(matches!(step.action, ReadAction::Wait));
    }
    let step = layer.read_after_fill(filled(&[6]), 10);
    assert!(matches!(step.action, ReadAction::Write(Phase::Reply, _)));
}

/// Feeds the stream in pieces of the given size, to a reader with the given room.
fn read_in_pieces<U: PacketDataTransform>(
    transform: U,
    stream: &[u8],
    piece: usize,
    room: usize,
) -> Vec<u8> {
    let mut layer = AsyncIoPacket::new(transform);
    let mut out = vec![];
    for bytes in stream.chunks(piece) {
        out.extend(layer.read_after_fill(filled(bytes), room).output);
        out.extend(layer.read_after_fill(FillEvent::Pending, room).output);
    }
    loop {
        let step = layer.read_after_fill(FillEvent::Pending, room);
        if step.output.is_empty() {
            return out;
        }
        out.extend(step.output);
    }
}

#[test]
fn the_pieces_in_which_bytes_arrive_do_not_matter() {
    // two messages, one of them in two packets, then one with a handshake packet
    let stream = [
        0, 2, 1, 1, 2, 0, 1, 0, 3, 0, 0, 0, 0, 4, 0, 4, 5, 6, 7, 0, 1, 2, 9, 0, 1, 0, 8,
    ];
    for piece in 1..stream.len() + 1 {
        for room in [1, 2, 3, 100] {
            let out = read_in_pieces(NoopPacketDataTransform {}, &stream, piece, room);
            assert_eq!(out, [1, 2, 3, 4, 5, 6, 7]);
        }
    }
    // the third message has a wrong checksum
    let mut stream = vec![];
    let mut chksum = ChecksumPacketDataTransform {};
    for (i, payload) in [&b"one"[..], b"two", b"three", b"four"].iter().enumerate() {
        let mut msg = chksum.write_message(payload).unwrap();
        if i == 2 {
            msg[5] ^= 1;
        }
        stream.extend([0, msg.len() as u8, 0]);
        stream.extend(msg);
    }
    for piece in 1..stream.len() + 1 {
        for room in [1, 4, 100] {
            let out = read_in_pieces(ChecksumPacketDataTransform {}, &stream, piece, room);
            assert_eq!(out, b"onetwo");
        }
    }
}

#[test]
fn no_stream_of_bytes_breaks_the_framing() {
    let mut layer = AsyncIoPacket::new(NoopPacketDataTransform {});
    let mut x: u32 = 12345;
    for _ in 0..2000 {
        let mut bytes = vec![];
        for _ in 0..x % 50 {
            x = x.wrapping_mul(1103515245).wrapping_add(12345);
            bytes.push((x >> 24) as u8 & 0x0D);
        }
        x = x.wrapping_mul(1103515245).wrapping_add(12345);
        layer.read_after_fill(FillEvent::Filled(bytes), 1000);
    }
}

#[test]
fn a_shutdown_flushes_first() {
    let mut layer = AsyncIoPacket::new(NoopPacketDataTransform {});
    layer.begin_write(&[1]);
    assert_eq!(layer.begin_shutdown(), ShutdownAction::FlushIo);
    assert_eq!(
        layer.shutdown_after_flush(FlushEvent::Pending),
        ShutdownAction::Wait
    );
    assert_eq!(
        layer.shutdown_after_flush(FlushEvent::Failed),
        ShutdownAction::IoError
    );
    assert_eq!(
        layer.shutdown_after_flush(FlushEvent::Done),
        ShutdownAction::ShutdownIo
    );
    // what is queued stays queued
    assert!(matches!(layer.begin_flush().action, FlushAction::Write(_)));
}

#[test]
fn a_limit_of_nothing_is_no_limit() {
    let mut layer = AsyncIoPacket::new(Custom {
        limit: Some(0),
        ..Custom::default()
    });
    match layer.begin_write(&[1, 2, 3]).action {
        WriteAction::Write(bytes) => assert_eq!(bytes, [0, 3, 0, 1, 2, 3]),
        other => panic!("{:?}", other),
    }
}

#[test]
fn a_write_that_is_begun_again_is_queued_again() {
    let mut layer = AsyncIoPacket::new(NoopPacketDataTransform {});
    layer.begin_write(&[5]);
    layer.write_after_write(WriteEvent::Pending, 1);
    match layer.begin_write(&[5]).action {
        WriteAction::Write(bytes) => assert_eq!(bytes, [0, 1, 0, 5, 0, 1, 0, 5]),
        other => panic!("{:?}", other),
    }
}

#[test]
fn the_pieces_do_not_matter_during_the_handshake() {
    // what a client sends: the handshake, then two messages
    let mut client = AsyncIoPacket::new(OtpPacketDataTransform::<StdRng>::client(4));
    let mut stream = match client.begin_read().action {
        ReadAction::Write(_, bytes) => bytes,
        other => panic!("{:?}", other),
    };
    client.read_after_write(Phase::KickOff, WriteEvent::Done(stream.len()));
    for payload in [&b"first"[..], b"second"] {
        match client.begin_write(payload).action {
            WriteAction::Write(bytes) => {
                client.write_after_write(WriteEvent::Done(bytes.len()), payload.len());
                stream.extend(bytes);
            }
            other => panic!("{:?}", other),
        }
    }
    for piece in [997, 65535, 99999, 100006, 100010, 200000] {
        for room in [1, 4, 100] {
            let server = OtpPacketDataTransform::<StdRng>::server(4);
            assert_eq!(
                read_in_pieces(server, &stream, piece, room),
                b"firstsecond"
            );
        }
    }
}
