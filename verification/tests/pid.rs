use alaquint_comps::pid::{
    decode_reply, write_pid_packet, PidCmd, PidReply, PidSystem, PACKET_HEADER_FIRST,
    PACKET_HEADER_SECOND, PACKET_SIZE,
};

#[test]
fn lsb_of_idk_is_low_byte() {
    assert_eq!(PidCmd::Idk.lsb(), 0x69);
}

#[test]
fn msb_of_idk_is_high_byte() {
    assert_eq!(PidCmd::Idk.msb(), 0x67);
}

#[test]
fn code_bytes_put_together_give_code() {
    let cmd = PidCmd::Idk;
    assert_eq!(cmd.code(), 0x6769);
    assert_eq!((cmd.msb() as u16) * 256 + cmd.lsb() as u16, cmd.code());
}

#[test]
fn pid_system_default_is_hello() {
    assert_eq!(PidSystem::default(), PidSystem::Hello);
}

#[test]
fn packet_for_default_speeds() {
    let mut buf: Vec<u8> = Vec::with_capacity(PACKET_SIZE);
    let right: f32 = 66.0;
    let left: f32 = 33.0;
    write_pid_packet(&mut buf, &PidCmd::Idk, right.to_bits(), left.to_bits());
    let mut expected = vec![PACKET_HEADER_FIRST, PACKET_HEADER_SECOND, 0x69, 0x67];
    expected.extend_from_slice(&right.to_le_bytes());
    expected.extend_from_slice(&left.to_le_bytes());
    assert_eq!(buf, expected);
    assert_eq!(
        buf,
        vec![0xAA, 0x55, 0x69, 0x67, 0x00, 0x00, 0x84, 0x42, 0x00, 0x00, 0x04, 0x42]
    );
}

#[test]
fn packet_replaces_old_contents() {
    let mut buf: Vec<u8> = vec![1, 2, 3, 4, 5, 6, 7, 8, 9, 10, 11, 12, 13, 14];
    write_pid_packet(&mut buf, &PidCmd::Idk, 0x0403_0201, 0xDDCC_BBAA);
    assert_eq!(
        buf,
        vec![0xAA, 0x55, 0x69, 0x67, 0x01, 0x02, 0x03, 0x04, 0xAA, 0xBB, 0xCC, 0xDD]
    );
}

#[test]
fn packet_speeds_read_back() {
    let mut buf: Vec<u8> = Vec::new();
    let right: f32 = -12.5;
    let left: f32 = 1234.75;
    write_pid_packet(&mut buf, &PidCmd::Idk, right.to_bits(), left.to_bits());
    assert_eq!(buf.len(), 12);
    let r = f32::from_le_bytes([buf[4], buf[5], buf[6], buf[7]]);
    let l = f32::from_le_bytes([buf[8], buf[9], buf[10], buf[11]]);
    assert_eq!(r, right);
    assert_eq!(l, left);
}

#[test]
fn reply_text_is_decoded_up_to_the_count() {
    let mut buf = vec![0u8; PACKET_SIZE];
    buf[..5].copy_from_slice(b"ok 42");
    buf[5] = 0xFF;
    match decode_reply(&buf, 5) {
        PidReply::Text(s) => assert_eq!(s, "ok 42"),
        PidReply::Unreadable => panic!("expected text"),
    }
}

#[test]
fn reply_with_invalid_utf8_is_unreadable() {
    let buf = vec![b'a', 0xFF, 0xFE, b'b'];
    assert!(matches!(decode_reply(&buf, 4), PidReply::Unreadable));
}

#[test]
fn empty_reply_is_empty_text() {
    let buf = vec![0xFFu8; 3];
    match decode_reply(&buf, 0) {
        PidReply::Text(s) => assert_eq!(s, ""),
        PidReply::Unreadable => panic!("expected text"),
    }
}

#[test]
fn reply_with_multibyte_text() {
    let bytes = "héllo".as_bytes().to_vec();
    match decode_reply(&bytes, bytes.len()) {
        PidReply::Text(s) => assert_eq!(s, "héllo"),
        PidReply::Unreadable => panic!("expected text"),
    }
    // cutting a multibyte character in half makes the reply unreadable
    assert!(matches!(decode_reply(&bytes, 2), PidReply::Unreadable));
}

#[test]
fn reply_display_texts() {
    assert_eq!(PidReply::Text("rpm 10".to_string()).display_text(), "rpm 10");
    assert_eq!(
        PidReply::Unreadable.display_text(),
        "[software] failed to parse bytes\n"
    );
    assert!(matches!(PidReply::from_decoded(None), PidReply::Unreadable));
    match PidReply::from_decoded(Some("x".to_string())) {
        PidReply::Text(s) => assert_eq!(s, "x"),
        PidReply::Unreadable => panic!("expected text"),
    }
}
