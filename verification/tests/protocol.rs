use lcm_status::protocol::{
    ack_frame, checksum, describe_frame, init_frames, is_ack, parse_reply, react, text_frame, Frame,
    FrameBuffer, Key, FRAME_MAX,
};

#[test]
fn frame_bytes_have_a_checksum() {
    let f = Frame { opcode: 0xF0, subcmd: 0x11, payload: vec![1] };
    assert_eq!(f.raw(), vec![0xF0, 1, 0x11, 1, 0x03]);
    assert_eq!(checksum(&f.raw()), 0x03);
}

#[test]
fn long_payload_is_cut() {
    let f = Frame { opcode: 0xF0, subcmd: 0x27, payload: vec![7; 30] };
    let raw = f.raw();
    assert_eq!(raw.len(), FRAME_MAX);
    assert_eq!(raw[1], 18);
}

#[test]
fn reply_inverts_frame_on_an_example() {
    let raw = Frame { opcode: 0xF0, subcmd: 0x80, payload: vec![4] }.raw();
    assert_eq!(parse_reply(&raw, raw.len()), Some((0xF0, 0x80, vec![4], true)));
    assert_eq!(parse_reply(&raw, 3), None);
    assert_eq!(parse_reply(&raw, 4), Some((0xF0, 0x80, vec![4], false)));
}

#[test]
fn wrong_byte_fails_the_checksum() {
    let mut raw = Frame { opcode: 0xF0, subcmd: 0x80, payload: vec![4] }.raw();
    raw[3] = 5;
    assert_eq!(parse_reply(&raw, raw.len()), Some((0xF0, 0x80, vec![5], false)));
}

#[test]
fn text_is_padded_and_cut_to_sixteen_bytes() {
    let f = text_frame(1, "HELLO", 0);
    assert_eq!((f.opcode, f.subcmd), (0xF0, 0x27));
    let mut want = vec![1, 0];
    want.extend_from_slice(b"HELLO           ");
    assert_eq!(f.payload, want);
    assert_eq!(f.raw().len(), FRAME_MAX);
    assert_eq!(text_frame(0, "0123456789abcdefXYZ", 0).payload[2..], *b"0123456789abcdef");
}

#[test]
fn start_and_acknowledge_frames() {
    let (a, b) = init_frames();
    assert_eq!((a.subcmd, a.payload), (0x11, vec![1]));
    assert_eq!((b.subcmd, b.payload), (0x22, vec![0]));
    let f = ack_frame(0x80);
    assert_eq!((f.opcode, f.subcmd, f.payload), (0xF1, 0x80, vec![0]));
}

#[test]
fn only_the_matching_reply_acknowledges() {
    assert!(is_ack(0xF0, 0x27, &Some((0xF1, 0x27, vec![0], true))));
    assert!(!is_ack(0xF0, 0x27, &Some((0xF0, 0x27, vec![0], true))));
    assert!(!is_ack(0xF0, 0x27, &Some((0xF1, 0x22, vec![0], true))));
    assert!(!is_ack(0xF0, 0x27, &Some((0xF1, 0x27, vec![4], true))));
    assert!(!is_ack(0xF0, 0x27, &Some((0xF1, 0x27, vec![0], false))));
    assert!(!is_ack(0xF0, 0x27, &None));
}

#[test]
fn buffer_takes_one_frame() {
    let mut b = FrameBuffer::new();
    assert!(b.frame().is_none());
    for x in (Frame { opcode: 0xF0, subcmd: 0x80, payload: vec![2] }).raw() {
        b.push(x);
    }
    assert_eq!(b.frame(), Some((0xF0, 0x80, vec![2], true)));
    for _ in 0..100 {
        b.push(9);
    }
    assert!(b.is_full());
}

#[test]
fn keys_by_code() {
    assert_eq!(Key::from(1), Key::Up);
    assert_eq!(Key::from(2), Key::Down);
    assert_eq!(Key::from(3), Key::Back);
    assert_eq!(Key::from(4), Key::Enter);
    let r = react(&(0xF0, 0x80, vec![4], true));
    assert_eq!(r.key, Some(Key::Enter));
    let r = react(&(0xF0, 0x80, vec![4], false));
    assert_eq!(r.key, None);
}

#[test]
fn frames_in_words() {
    assert_eq!(
        describe_frame(&(0xF0, 0x80, vec![1], true)),
        "<- opcode=0xF0 subcmd=0x80 payload=[01] cksum_ok=true  => KEY Up (code=1)"
    );
    assert_eq!(
        describe_frame(&(0xF0, 0x13, vec![1, 2, 3], false)),
        "<- opcode=0xF0 subcmd=0x13 payload=[01, 02, 03] cksum_ok=false  => MCU VERSION 1.2.3"
    );
    assert_eq!(
        describe_frame(&(0xF1, 0x13, vec![], true)),
        "<- opcode=0xF1 subcmd=0x13 payload=[] cksum_ok=true"
    );
}
