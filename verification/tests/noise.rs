use async_io_packet::noise_transform::filled_part;
use async_io_packet::{NoisePacketDataTransform, PacketDataTransform, TransformError};
use std::fmt::Debug;

type Noise = NoisePacketDataTransform;

fn words(e: TransformError) -> String {
    assert!(matches!(e, TransformError::Noise(_)));
    e.message()
}

fn connected() -> (Noise, Noise) {
    let mut client = Noise::client(&[7; 32]).unwrap();
    let mut server = Noise::server(&[7; 32]).unwrap();
    client.handshake_step(&[]).unwrap();
    let a = client.handshake_bytes().unwrap().unwrap();
    server.handshake_step(&a).unwrap();
    let b = server.handshake_bytes().unwrap().unwrap();
    client.handshake_step(&b).unwrap();
    let c = client.handshake_bytes().unwrap().unwrap();
    server.handshake_step(&c).unwrap();
    assert_eq!((a.len(), b.len(), c.len()), (48, 96, 64));
    (client, server)
}

#[test]
fn the_handshake_takes_three_messages() {
    let mut client = Noise::client(&[7; 32]).unwrap();
    let mut server = Noise::server(&[7; 32]).unwrap();
    assert!(client.handshaking() && server.handshaking());
    assert!(client.need_to_start_handshake());
    assert!(!server.need_to_start_handshake());
    // an empty message is skipped
    server.handshake_step(&[]).unwrap();
    assert_eq!(server.handshake_bytes().unwrap(), None);

    client.handshake_step(&[]).unwrap();
    assert!(client.handshaking() && !client.need_to_start_handshake());
    let a = client.handshake_bytes().unwrap().unwrap();
    assert_eq!(a.len(), 48);
    assert_eq!(client.handshake_bytes().unwrap(), None);

    server.handshake_step(&a).unwrap();
    assert!(server.handshaking());
    let b = server.handshake_bytes().unwrap().unwrap();
    assert_eq!(b.len(), 96);

    client.handshake_step(&b).unwrap();
    assert!(!client.handshaking());
    let c = client.handshake_bytes().unwrap().unwrap();
    assert_eq!(c.len(), 64);
    assert_eq!(client.handshake_bytes().unwrap(), None);

    server.handshake_step(&c).unwrap();
    assert!(!server.handshaking());
    assert_eq!(server.handshake_bytes().unwrap(), None);
    assert!(!client.poisoned() && !server.poisoned());
}

#[test]
fn two_handshakes_differ() {
    let mut messages = vec![];
    for _ in 0..2 {
        let mut client = Noise::client(&[7; 32]).unwrap();
        client.handshake_step(&[]).unwrap();
        messages.push(client.handshake_bytes().unwrap().unwrap());
    }
    assert_ne!(messages[0], messages[1]);
}

#[test]
fn the_key_must_have_the_right_length() {
    for len in [0, 31, 33] {
        let e = Noise::client(&vec![1; len]).unwrap_err();
        assert_eq!(words(e), "initialization error: ValidatePskLengths");
        let e = Noise::server(&vec![1; len]).unwrap_err();
        assert_eq!(words(e), "initialization error: ValidatePskLengths");
    }
}

#[test]
fn data_goes_both_ways() {
    let (mut client, mut server) = connected();
    for payload in [&b"one"[..], b"", b"another"] {
        let msg = client.write_message(payload).unwrap();
        assert_eq!(msg.len(), payload.len() + 16);
        assert!(!msg.windows(3).any(|w| w == b"one"));
        let back = server.write_message(b"back").unwrap();
        assert_eq!(server.read_payload(&msg).unwrap(), payload);
        assert_eq!(client.read_payload(&back).unwrap(), b"back");
    }
}

#[test]
fn the_largest_payload_fits() {
    let (mut client, mut server) = connected();
    assert_eq!(client.max_payload_bytes(), Some(65519));
    let payload = vec![3; 65519];
    let msg = client.write_message(&payload).unwrap();
    assert_eq!(msg.len(), 65535);
    assert_eq!(server.read_payload(&msg).unwrap(), payload);

    let e = client.write_message(&vec![3; 65520]).unwrap_err();
    assert_eq!(words(e), "input error");
    // nothing has changed
    let msg = client.write_message(b"still there").unwrap();
    assert_eq!(server.read_payload(&msg).unwrap(), b"still there");
}

#[test]
fn a_message_that_was_tampered_with_is_refused() {
    let (mut client, mut server) = connected();
    let msg = client.write_message(b"payload").unwrap();
    let mut bad = msg.clone();
    bad[2] ^= 1;
    assert_eq!(words(server.read_payload(&bad).unwrap_err()), "decrypt error");
    assert_eq!(
        words(server.read_payload(&[0; 15]).unwrap_err()),
        "decrypt error"
    );
    assert_eq!(
        words(server.read_payload(&vec![0; 65536]).unwrap_err()),
        "input error"
    );
    assert_eq!(server.read_payload(&msg).unwrap(), b"payload");
    // once only
    assert_eq!(words(server.read_payload(&msg).unwrap_err()), "decrypt error");
}

#[test]
fn no_data_before_the_handshake() {
    let mut client = Noise::client(&[7; 32]).unwrap();
    let e = client.write_message(b"early").unwrap_err();
    assert!(matches!(e, TransformError::HandshakePending));
    assert_eq!(e.message(), "need to complete handshake first!");
    let e = client.read_payload(b"early").unwrap_err();
    assert!(matches!(e, TransformError::HandshakePending));
    assert!(client.handshaking() && client.need_to_start_handshake());
}

#[test]
fn a_step_after_the_handshake_spoils_the_session() {
    let (mut client, _) = connected();
    let e = client.handshake_step(&[]).unwrap_err();
    assert!(matches!(e, TransformError::HandshakeOver));
    assert_eq!(e.message(), "completed handshake already!");
    assert!(client.poisoned());
    assert!(!client.handshaking());
}

#[test]
fn a_bad_handshake_message_spoils_the_session() {
    let mut server = Noise::server(&[7; 32]).unwrap();
    assert_eq!(words(server.handshake_step(&[1]).unwrap_err()), "input error");
    assert!(server.poisoned());

    let mut server = Noise::server(&[7; 32]).unwrap();
    let e = server.handshake_step(&vec![1; 65536]).unwrap_err();
    assert_eq!(words(e), "input error");
    assert!(server.poisoned());

    let mut server = Noise::server(&[7; 32]).unwrap();
    let e = server.handshake_step(&[1; 48]).unwrap_err();
    assert_eq!(words(e), "decrypt error");
    assert!(server.poisoned());
}

#[test]
fn the_filled_part_of_a_buffer() {
    assert_eq!(filled_part(Ok(2), vec![1, 2, 3]).unwrap(), [1, 2]);
    assert_eq!(filled_part(Ok(0), vec![1, 2, 3]).unwrap(), []);
    let e = filled_part(Err(snow::Error::Decrypt), vec![1]).unwrap_err();
    assert_eq!(words(e), "decrypt error");
    let e = filled_part(Err(snow::Error::Input), vec![1]).unwrap_err();
    assert_eq!(words(e), "input error");
}

/// Runs a handshake through.
fn connect(mut client: Noise, mut server: Noise) -> (Noise, Noise) {
    client.handshake_step(&[]).unwrap();
    let msg = client.handshake_bytes().unwrap().unwrap();
    server.handshake_step(&msg).unwrap();
    let msg = server.handshake_bytes().unwrap().unwrap();
    client.handshake_step(&msg).unwrap();
    let msg = client.handshake_bytes().unwrap().unwrap();
    server.handshake_step(&msg).unwrap();
    (client, server)
}

#[test]
fn the_private_key_may_be_given() {
    let client = Noise::client_with_key(&[7; 32], &[1; 32]).unwrap();
    let server = Noise::server_with_key(&[7; 32], &[2; 32]).unwrap();
    let (mut client, mut server) = connect(client, server);
    let msg = client.write_message(b"hello").unwrap();
    assert_eq!(server.read_payload(&msg).unwrap(), b"hello");

    // a given key goes with a drawn one
    let client = Noise::client(&[7; 32]).unwrap();
    let server = Noise::server_with_key(&[7; 32], &[2; 32]).unwrap();
    let (mut client, mut server) = connect(client, server);
    let msg = server.write_message(b"hello").unwrap();
    assert_eq!(client.read_payload(&msg).unwrap(), b"hello");

    let e = Noise::client_with_key(&[7; 5], &[1; 32]).unwrap_err();
    assert_eq!(words(e), "initialization error: ValidatePskLengths");
    let e = Noise::server_with_key(&[], &[1; 32]).unwrap_err();
    assert_eq!(words(e), "initialization error: ValidatePskLengths");
}

#[test]
fn messages_are_read_in_the_order_in_which_they_were_written() {
    let (mut a, mut b) = connected();
    let payloads: Vec<Vec<u8>> = (0..50).map(|i| vec![i as u8; i * 7]).collect();
    // all are written before any is read, in both directions
    let there: Vec<Vec<u8>> = payloads.iter().map(|p| a.write_message(p).unwrap()).collect();
    let back: Vec<Vec<u8>> = payloads.iter().map(|p| b.write_message(p).unwrap()).collect();
    for (i, payload) in payloads.iter().enumerate() {
        assert_eq!(&b.read_payload(&there[i]).unwrap(), payload);
        assert_eq!(&a.read_payload(&back[i]).unwrap(), payload);
    }
}

/// Formats a value, and keeps whether that failed.
struct Probe<'a> {
    value: &'a Noise,
    failed: std::cell::Cell<bool>,
}

impl std::fmt::Debug for Probe<'_> {
    fn fmt(&self, f: &mut std::fmt::Formatter<'_>) -> std::fmt::Result {
        self.failed.set(self.value.fmt(f).is_err());
        Ok(())
    }
}

#[test]
fn a_session_is_shown_without_its_keys() {
    let mut client = Noise::client(&[7; 32]).unwrap();
    assert_eq!(
        format!("{:?}", client),
        "NoisePacketDataTransform { noise_state: \
         NoiseState::Handshake { state: ClientStart, handshake_bytes: None } }"
    );
    client.handshake_step(&[]).unwrap();
    let shown = format!("{:?}", client);
    assert!(shown.starts_with(
        "NoisePacketDataTransform { noise_state: \
         NoiseState::Handshake { state: ClientWait, handshake_bytes: Some(["
    ));

    let (mut client, _) = connected();
    assert_eq!(
        format!("{:?}", client),
        "NoisePacketDataTransform { noise_state: \
         NoiseState::Transport { final_handshake_bytes: None } }"
    );
    assert_eq!(
        format!("{:#?}", client),
        "NoisePacketDataTransform {\n    noise_state: NoiseState::Transport {\n        \
         final_handshake_bytes: None,\n    },\n}"
    );

    client.handshake_step(&[]).unwrap_err();
    let probe = Probe {
        value: &client,
        failed: std::cell::Cell::new(false),
    };
    let _ = format!("{:?}", probe);
    assert!(probe.failed.get());
}

#[test]
fn any_changed_byte_is_refused_and_changes_nothing() {
    let (mut client, mut server) = connected();
    let msg = client.write_message(b"payload").unwrap();
    for at in 0..msg.len() {
        let mut changed = msg.clone();
        changed[at] ^= 0x40;
        let e = server.read_payload(&changed).unwrap_err();
        assert_eq!(words(e), "decrypt error");
    }
    assert_eq!(server.read_payload(&msg).unwrap(), b"payload");
}

#[test]
fn another_key_is_refused_with_the_last_message() {
    let mut client = Noise::client(&[1; 32]).unwrap();
    let mut server = Noise::server(&[2; 32]).unwrap();
    client.handshake_step(&[]).unwrap();
    let msg = client.handshake_bytes().unwrap().unwrap();
    server.handshake_step(&msg).unwrap();
    let msg = server.handshake_bytes().unwrap().unwrap();
    client.handshake_step(&msg).unwrap();
    let msg = client.handshake_bytes().unwrap().unwrap();
    let e = server.handshake_step(&msg).unwrap_err();
    assert_eq!(words(e), "decrypt error");
    assert!(server.poisoned() && !server.handshaking());
}

#[test]
fn two_sessions_are_shown_alike() {
    let (a, b) = connected();
    let (c, _) = connected();
    assert_eq!(format!("{:?}", a), format!("{:?}", b));
    assert_eq!(format!("{:?}", a), format!("{:?}", c));
}
