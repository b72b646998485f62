use async_io_packet::otp_transform::{combine, compare_handshake};
use async_io_packet::{OtpPacketDataTransform, PacketDataTransform, TransformError};
use rand::rngs::StdRng;
use rand::Rng;
use rand::SeedableRng;

type Otp = OtpPacketDataTransform<StdRng>;

#[test]
fn the_pad_is_drawn_byte_by_byte() {
    let mut rng = StdRng::seed_from_u64(17);
    let mut otp = Otp::new(17);
    let data: Vec<u8> = (0..100).collect();
    let expected: Vec<u8> = data.iter().map(|b| b ^ rng.gen::<u8>()).collect();
    assert_eq!(otp.write_message(&data).unwrap(), expected);
    assert_ne!(expected, data);
    // the pad goes on where it was
    let expected: Vec<u8> = data.iter().map(|b| b ^ rng.gen::<u8>()).collect();
    assert_eq!(otp.write_message(&data).unwrap(), expected);
}

#[test]
fn the_same_seed_reads_back() {
    let mut a = Otp::new(5);
    let mut b = Otp::new(5);
    for payload in [&b"one"[..], b"", b"and another one"] {
        let msg = a.write_message(payload).unwrap();
        assert_eq!(msg.len(), payload.len());
        assert_eq!(b.read_payload(&msg).unwrap(), payload);
    }
    let msg = b.write_message(b"back").unwrap();
    assert_eq!(a.read_payload(&msg).unwrap(), b"back");
}

#[test]
fn the_handshake_message_is_the_pad() {
    let mut rng = StdRng::seed_from_u64(23);
    let mut expected = vec![0u8; 100000];
    rng.fill(&mut expected[..]);

    let mut client = Otp::client(23);
    assert!(client.handshaking());
    assert!(client.need_to_start_handshake());
    assert_eq!(client.max_payload_bytes(), None);
    assert_eq!(client.handshake_bytes().unwrap(), None);
    client.handshake_step(&[]).unwrap();
    assert!(!client.handshaking());
    let msg = client.handshake_bytes().unwrap().unwrap();
    assert_eq!(msg, expected);
    assert_eq!(client.handshake_bytes().unwrap(), None);

    let mut server = Otp::server(23);
    assert!(server.handshaking());
    assert!(!server.need_to_start_handshake());
    // an empty message is skipped
    server.handshake_step(&[]).unwrap();
    assert!(server.handshaking());
    server.handshake_step(&msg).unwrap();
    assert!(!server.handshaking());
    assert_eq!(server.handshake_bytes().unwrap(), None);

    // both go on with the same pad
    let data = [0u8; 9];
    let expected: Vec<u8> = data.iter().map(|b| b ^ rng.gen::<u8>()).collect();
    let msg = server.write_message(&data).unwrap();
    assert_eq!(msg, expected);
    assert_eq!(client.read_payload(&msg).unwrap(), data);
}

#[test]
fn a_handshake_of_the_wrong_length_is_refused() {
    let mut server = Otp::server(23);
    let e = server.handshake_step(&[1, 2, 3]).unwrap_err();
    assert!(matches!(e, TransformError::PadLength));
    assert_eq!(e.message(), "otp handshake length invalid!");
    assert!(!server.handshaking());
    assert!(!server.poisoned());
}

#[test]
fn a_handshake_with_another_seed_is_refused() {
    let mut client = Otp::client(24);
    client.handshake_step(&[]).unwrap();
    let msg = client.handshake_bytes().unwrap().unwrap();
    let mut server = Otp::server(23);
    let e = server.handshake_step(&msg).unwrap_err();
    assert!(matches!(e, TransformError::PadBytes));
    assert_eq!(e.message(), "otp handshake bytes invalid!");
}

#[test]
fn there_is_one_handshake_only() {
    let mut otp = Otp::new(1);
    assert!(!otp.handshaking());
    let e = otp.handshake_step(&[]).unwrap_err();
    assert!(matches!(e, TransformError::HandshakeOver));
    assert_eq!(e.message(), "completed handshake already!");
}

#[test]
fn bytes_are_combined_in_their_places() {
    assert_eq!(combine(&[1, 2, 0xFF], &[1, 1, 0x0F]), [0, 3, 0xF0]);
    assert_eq!(combine(&combine(b"data", b"pad!"), b"pad!"), b"data");
    assert_eq!(combine(&[], &[]), []);
}

#[test]
fn a_handshake_message_is_compared_as_a_whole() {
    assert!(compare_handshake(b"same", b"same").is_ok());
    for other in [&b"sama"[..], b"sam", b"same!", b""] {
        let e = compare_handshake(b"same", other).unwrap_err();
        assert!(matches!(e, TransformError::PadBytes));
    }
}

#[test]
fn the_pad_is_not_shown() {
    let otp = Otp::client(1);
    assert_eq!(format!("{:?}", otp), "OtpPacketDataTransform");
    assert_eq!(format!("{:#?}", otp), "OtpPacketDataTransform");
}

#[test]
fn regrouping_the_bytes_does_not_change_what_is_read() {
    let bytes: Vec<u8> = (0..60).collect();
    let whole = Otp::new(8).read_payload(&bytes).unwrap();
    for at in 0..bytes.len() {
        let mut otp = Otp::new(8);
        let mut parts = otp.read_payload(&bytes[..at]).unwrap();
        parts.extend(otp.read_payload(&bytes[at..]).unwrap());
        assert_eq!(parts, whole);
    }
}
