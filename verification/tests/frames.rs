use xiaozhi_server::frame::{
    read_ws_frame, write_ws_close, write_ws_frame, write_ws_text, FrameStep,
};

fn decode(bytes: &[u8]) -> (u8, Vec<u8>, usize) {
    match read_ws_frame(bytes) {
        FrameStep::Frame(frame, used) => (frame.opcode, frame.payload, used),
        FrameStep::Need(n) => panic!("{n} bytes missing"),
    }
}

fn needed(bytes: &[u8]) -> u64 {
    match read_ws_frame(bytes) {
        FrameStep::Frame(_, _) => 0,
        FrameStep::Need(n) => n,
    }
}

#[test]
fn short_frames_have_two_bytes_of_head() {
    assert_eq!(write_ws_text("hi"), vec![0x81, 2, b'h', b'i']);
    assert_eq!(write_ws_close(), vec![0x88, 0]);
    assert_eq!(write_ws_frame(0xa, &[7]), vec![0x8a, 1, 7]);
    assert_eq!(
        write_ws_text("你"),
        vec![0x81, 3, 0xe4, 0xbd, 0xa0]
    );
}

#[test]
fn longer_frames_extend_the_length() {
    assert_eq!(write_ws_frame(2, &vec![0u8; 125])[..2], [0x82, 125]);
    assert_eq!(write_ws_frame(2, &vec![0u8; 126])[..4], [0x82, 126, 0, 126]);
    assert_eq!(
        write_ws_frame(2, &vec![0u8; 65_535])[..4],
        [0x82, 126, 0xff, 0xff]
    );
    assert_eq!(
        write_ws_frame(2, &vec![0u8; 65_536])[..10],
        [0x82, 127, 0, 0, 0, 0, 0, 1, 0, 0]
    );
}

#[test]
fn written_frames_are_read_back() {
    for length in [0usize, 1, 125, 126, 127, 65_535, 65_536] {
        let payload: Vec<u8> = (0..length).map(|i| (i % 251) as u8).collect();
        let mut bytes = write_ws_frame(2, &payload);
        let used = bytes.len();
        bytes.extend_from_slice(b"more");
        assert_eq!(decode(&bytes), (2, payload, used));
    }
}

#[test]
fn masked_frames_are_unmasked() {
    let bytes = [
        0x81, 0x85, 0x37, 0xfa, 0x21, 0x3d, 0x7f, 0x9f, 0x4d, 0x51, 0x58,
    ];
    assert_eq!(decode(&bytes), (1, b"Hello".to_vec(), 11));

    let key = [1u8, 2, 3, 4];
    let payload = vec![0x55u8; 300];
    let mut long = vec![0x82, 0xfe, 1, 44];
    long.extend_from_slice(&key);
    for (i, byte) in payload.iter().enumerate() {
        long.push(byte ^ key[i % 4]);
    }
    assert_eq!(decode(&long), (2, payload, 308));
}

#[test]
fn flags_of_the_first_byte_are_passed_over() {
    assert_eq!(decode(&[0x01, 0]).0, 1);
    assert_eq!(decode(&[0xf9, 0]).0, 9);
}

#[test]
fn missing_bytes_are_asked_for_in_turn() {
    assert_eq!(needed(&[]), 2);
    assert_eq!(needed(&[0x81]), 1);
    assert_eq!(needed(&[0x81, 5]), 5);
    assert_eq!(needed(&[0x81, 5, 0, 0]), 3);
    assert_eq!(needed(&[0x81, 126]), 2);
    assert_eq!(needed(&[0x81, 127, 0]), 7);
    assert_eq!(needed(&[0x81, 0x85]), 4);
    assert_eq!(needed(&[0x81, 0x85, 1, 2, 3, 4]), 5);
    assert_eq!(needed(&[0x81, 0xfe]), 2);
    assert_eq!(needed(&[0x81, 0xfe, 1, 0]), 4);
    assert_eq!(needed(&[0x81, 0xfe, 1, 0, 9, 9, 9, 9]), 256);
    assert_eq!(
        needed(&[0x81, 127, 255, 255, 255, 255, 255, 255, 255, 255, 0]),
        u64::MAX - 1
    );
}

#[test]
fn reading_stays_inside_the_frame() {
    let mut bytes = vec![0x82, 0xfe, 0, 200, 1, 2, 3, 4];
    bytes.resize(208, 7);
    let mut have = 0usize;
    while have < bytes.len() {
        let next = needed(&bytes[..have]) as usize;
        assert!(next > 0);
        have += next;
        assert!(have <= bytes.len());
    }
    assert_eq!(needed(&bytes), 0);
}
