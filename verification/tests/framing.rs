use async_io_packet::frame::announced_len;
use async_io_packet::incoming::Received;
use async_io_packet::outgoing::{big_write, drop_written, push_packets};
use async_io_packet::{continuation_packet, handshake_packet, AsyncIoPacket, FlushAction};
use async_io_packet::NoopPacketDataTransform;

fn cut(data: &[u8], handshake: bool) -> Vec<Vec<u8>> {
    let mut queue = vec![];
    push_packets(&mut queue, data, handshake);
    queue
}

#[test]
fn a_small_message_is_one_packet() {
    assert_eq!(cut(&[7, 8, 9], false), vec![vec![0, 3, 0, 7, 8, 9]]);
    assert_eq!(cut(&[7, 8, 9], true), vec![vec![0, 3, 2, 7, 8, 9]]);
    let p = cut(&[1; 258], false);
    assert_eq!(&p[0][..4], [1, 2, 0, 1]);
}

#[test]
fn an_empty_message_is_no_packet() {
    let mut queue = cut(&[1], true);
    push_packets(&mut queue, &[], false);
    assert_eq!(queue, vec![vec![0, 1, 2, 1]]);
}

#[test]
fn a_message_goes_on_in_the_next_packet() {
    let p = cut(&[5; 65532], false);
    assert_eq!(p.len(), 1);
    assert_eq!(p[0].len(), 65535);
    assert_eq!(&p[0][..4], [0xFF, 0xFC, 0, 5]);

    let p = cut(&[5; 65533], true);
    assert_eq!(p.len(), 2);
    assert_eq!(&p[0][..4], [0xFF, 0xFC, 3, 5]);
    assert_eq!(p[1], [0, 1, 2, 5]);

    let p = cut(&[5; 2 * 65532 + 10], false);
    assert_eq!(p.len(), 3);
    assert_eq!(p[0][2], 1);
    assert_eq!(p[1][2], 1);
    assert_eq!(&p[2][..3], [0, 10, 0]);
}

#[test]
fn flags_are_read() {
    assert!(!continuation_packet(&[0, 0, 0]));
    assert!(continuation_packet(&[0, 0, 1]));
    assert!(!continuation_packet(&[0, 0, 2]));
    assert!(continuation_packet(&[0, 0, 0xFF]));
    assert!(!handshake_packet(&[0, 0, 1]));
    assert!(handshake_packet(&[0, 0, 2]));
    assert!(handshake_packet(&[0, 0, 3]));
    assert!(!handshake_packet(&[0, 0, 0xFD]));
}

#[test]
fn the_length_is_big_endian() {
    assert_eq!(announced_len(&[0, 0]), 3);
    assert_eq!(announced_len(&[1, 2]), 3 + 258);
    assert_eq!(announced_len(&[0xFF, 0xFF]), 3 + 65535);
}

#[test]
fn packets_queue_up_in_a_layer() {
    let mut layer = AsyncIoPacket::new(NoopPacketDataTransform {});
    assert!(matches!(layer.begin_flush().action, FlushAction::FlushIo));
    layer.make_write_packets_from_data(vec![1, 2], false);
    layer.make_write_packets_from_data(vec![3], true);
    match layer.begin_flush().action {
        FlushAction::Write(bytes) => assert_eq!(bytes, [0, 2, 0, 1, 2, 0, 1, 2, 3]),
        _ => panic!("nothing to write"),
    }
}

#[test]
fn written_bytes_leave_from_the_front() {
    let mut queue = cut(&[1, 2], false);
    push_packets(&mut queue, &[3, 4, 5], false);
    assert_eq!(big_write(&queue), [0, 2, 0, 1, 2, 0, 3, 0, 3, 4, 5]);
    drop_written(&mut queue, 0);
    assert_eq!(queue.len(), 2);
    drop_written(&mut queue, 2);
    assert_eq!(queue, vec![vec![0, 1, 2], vec![0, 3, 0, 3, 4, 5]]);
    drop_written(&mut queue, 5);
    assert_eq!(queue, vec![vec![0, 3, 4, 5]]);
    assert_eq!(big_write(&queue), [0, 3, 4, 5]);
    drop_written(&mut queue, 4);
    assert!(queue.is_empty());
    drop_written(&mut queue, 4);
    assert!(queue.is_empty());
}

#[test]
fn a_message_is_put_together_byte_by_byte() {
    let mut received = Received::new();
    assert!(received.is_empty());
    let stream = [0, 2, 1, 7, 8, 0, 0, 3, 0, 1, 0, 9, 0, 5];
    for (i, b) in stream.iter().enumerate() {
        received.append(&[*b]);
        assert!(!received.is_empty());
        // the first packets are continued, the third ends the message
        assert_eq!(received.first().is_some(), i >= 11, "{}", i);
    }
    let m = received.first().unwrap();
    assert_eq!(m.data, [7, 8, 9]);
    assert!(!m.all_handshake);
    assert!(m.any_handshake);
    received.drop_front(m.packets);
    assert!(!received.is_empty());
    assert!(received.first().is_none());
    received.append(&[2, 1, 1, 1, 1, 1]);
    let m = received.first().unwrap();
    assert_eq!(m.data, [1, 1, 1, 1, 1]);
    assert!(m.all_handshake);
    assert!(m.any_handshake);
    received.drop_front(m.packets);
    assert!(received.is_empty());
}

#[test]
fn many_packets_may_arrive_at_once() {
    let mut received = Received::new();
    received.append(&[0, 1, 0, 1, 0, 0, 0, 0, 1, 0, 2]);
    let m = received.first().unwrap();
    assert_eq!(m.data, [1]);
    received.drop_front(m.packets);
    let m = received.first().unwrap();
    assert_eq!(m.data, Vec::<u8>::new());
    assert!(!m.any_handshake);
    received.drop_front(m.packets);
    let m = received.first().unwrap();
    assert_eq!(m.data, [2]);
    received.drop_front(m.packets);
    assert!(received.is_empty());
}
