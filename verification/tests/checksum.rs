use async_io_packet::{
    fletcher32, ChecksumPacketDataTransform, PacketDataTransform, TransformError,
};

#[test]
fn test_fletcher32() {
    assert_eq!(fletcher32("abcde".as_bytes()), 4031760169);
    assert_eq!(fletcher32("abcdef".as_bytes()), 1448095018);
    assert_eq!(fletcher32("abcdefgh".as_bytes()), 3957429649);
}

#[test]
fn test_round_trip() {
    let mut chksum = ChecksumPacketDataTransform {};

    let data: &[u8] = "test post please ignore".as_bytes();

    let message = chksum.write_message(data).unwrap();

    assert_eq!(&chksum.read_payload(&message).unwrap(), data);
}

#[test]
fn sums_wrap_at_ffff() {
    assert_eq!(fletcher32(&[]), 0);
    assert_eq!(fletcher32(&[1]), 0x0001_0001);
    assert_eq!(fletcher32(&[0xFF, 0xFF]), 0);
    assert_eq!(fletcher32(&[0xFF, 0xFF, 1]), 0x0001_0001);
    assert_eq!(fletcher32(&[1, 0, 2, 0]), 0x0004_0003);
}

#[test]
fn the_checksum_stands_in_front() {
    let mut chksum = ChecksumPacketDataTransform {};
    // 4031760169 is 0xF04FC729
    let message = chksum.write_message(b"abcde").unwrap();
    assert_eq!(message, b"\x29\xC7\x4F\xF0abcde");
}

#[test]
fn an_empty_payload_has_a_checksum_too() {
    let mut chksum = ChecksumPacketDataTransform {};
    let message = chksum.write_message(&[]).unwrap();
    assert_eq!(message, [0, 0, 0, 0]);
    assert_eq!(chksum.read_payload(&message).unwrap(), Vec::<u8>::new());
}

#[test]
fn a_short_message_has_no_checksum() {
    let mut chksum = ChecksumPacketDataTransform {};
    let e = chksum.read_payload(&[1, 2, 3]).unwrap_err();
    assert!(matches!(e, TransformError::ChecksumMissing));
    assert_eq!(e.message(), "no prepended checksum!");
}

#[test]
fn a_changed_byte_is_noticed() {
    let mut chksum = ChecksumPacketDataTransform {};
    let e = chksum
        .read_payload(b"\x29\xC7\x4F\xF0abcdf")
        .unwrap_err();
    assert!(matches!(
        e,
        TransformError::ChecksumMismatch {
            computed: 0xF050C72A,
            received: 0xF04FC729
        }
    ));
    assert_eq!(e.message(), "checksum mismatch! F050C72A != F04FC729");
    let e = chksum.read_payload(&[0, 0, 0, 0, 1]).unwrap_err();
    assert_eq!(e.message(), "checksum mismatch! 10001 != 0");
}

#[test]
fn there_is_no_handshake() {
    let mut chksum = ChecksumPacketDataTransform {};
    assert!(!chksum.handshaking());
    assert!(!chksum.need_to_start_handshake());
    assert!(!chksum.poisoned());
    assert_eq!(chksum.max_payload_bytes(), None);
    chksum.handshake_step(&[1]).unwrap();
    assert_eq!(chksum.handshake_bytes().unwrap(), None);
}

#[test]
fn any_changed_byte_is_noticed() {
    let mut chksum = ChecksumPacketDataTransform {};
    for payload in [&b"odd"[..], b"even", &[0, 0, 0, 0], &[0xFF; 7]] {
        let msg = chksum.write_message(payload).unwrap();
        for at in 0..msg.len() {
            for change in 1..=255 {
                let mut changed = msg.clone();
                changed[at] ^= change;
                let e = chksum.read_payload(&changed).unwrap_err();
                assert!(matches!(e, TransformError::ChecksumMismatch { .. }));
            }
        }
    }
}
