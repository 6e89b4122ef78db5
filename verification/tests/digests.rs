use std::time::{SystemTime, UNIX_EPOCH};

use xiaozhi_server::base64::base64_encode;
use xiaozhi_server::bytes::{push_big_endian, read_big_endian};
use xiaozhi_server::clock::{code_of, gen_code, gen_id, id_at, now_secs, seconds_at};
use xiaozhi_server::handshake::websocket_accept_key;
use xiaozhi_server::sha1::sha1_digest;

fn hex_of(bytes: &[u8]) -> String {
    let mut out = String::new();
    for byte in bytes {
        out.push_str(&format!("{byte:02x}"));
    }
    out
}

fn nanos() -> u128 {
    SystemTime::now()
        .duration_since(UNIX_EPOCH)
        .expect("after the epoch")
        .as_nanos()
}

#[test]
fn digests_of_known_messages() {
    assert_eq!(
        hex_of(&sha1_digest(b"")),
        "da39a3ee5e6b4b0d3255bfef95601890afd80709"
    );
    assert_eq!(
        hex_of(&sha1_digest(
            b"abcdbcdecdefdefgefghfghighijhijkijkljklmklmnlmnomnopnopq"
        )),
        "84983e441c3bd26ebaae4aa1f95129e5e54670f1"
    );
    assert_eq!(
        hex_of(&sha1_digest(
            b"The quick brown fox jumps over the lazy dog"
        )),
        "2fd4e1c67a2d28fced849ee1bb76e7391b93eb12"
    );
    assert_eq!(
        hex_of(&sha1_digest(&vec![b'a'; 1_000_000])),
        "34aa973cd4c4daa4f61eeb2bdbad27316534016f"
    );
}

#[test]
fn digests_differ_around_a_block() {
    let mut seen: Vec<[u8; 20]> = Vec::new();
    for length in 50..70 {
        let digest = sha1_digest(&vec![0u8; length]);
        assert!(!seen.contains(&digest));
        seen.push(digest);
    }
}

#[test]
fn base64_of_every_remainder() {
    assert_eq!(base64_encode(b""), "");
    assert_eq!(base64_encode(b"f"), "Zg==");
    assert_eq!(base64_encode(b"fo"), "Zm8=");
    assert_eq!(base64_encode(b"foo"), "Zm9v");
    assert_eq!(base64_encode(b"foob"), "Zm9vYg==");
    assert_eq!(base64_encode(b"fooba"), "Zm9vYmE=");
    assert_eq!(base64_encode(b"foobar"), "Zm9vYmFy");
}

#[test]
fn base64_uses_the_whole_alphabet() {
    let data: Vec<u8> = vec![
        0x00, 0x10, 0x83, 0x10, 0x51, 0x87, 0x20, 0x92, 0x8b, 0x30, 0xd3, 0x8f, 0x41, 0x14, 0x93,
        0x51, 0x55, 0x97, 0x61, 0x96, 0x9b, 0x71, 0xd7, 0x9f, 0x82, 0x18, 0xa3, 0x92, 0x59, 0xa7,
        0xa2, 0x9a, 0xab, 0xb2, 0xdb, 0xaf, 0xc3, 0x1c, 0xb3, 0xd3, 0x5d, 0xb7, 0xe3, 0x9e, 0xbb,
        0xf3, 0xdf, 0xbf,
    ];
    assert_eq!(
        base64_encode(&data),
        "ABCDEFGHIJKLMNOPQRSTUVWXYZabcdefghijklmnopqrstuvwxyz0123456789+/"
    );
}

#[test]
fn base64_length_and_difference() {
    let mut texts: Vec<String> = Vec::new();
    for length in 0..20usize {
        let text = base64_encode(&vec![0u8; length]);
        assert_eq!(text.len(), 4 * ((length + 2) / 3));
        assert!(!texts.contains(&text));
        texts.push(text);
    }
}

#[test]
fn accept_keys_have_one_length() {
    assert_eq!(websocket_accept_key("").len(), 28);
    assert_eq!(websocket_accept_key("x3JJHMbDL1EzLkh9GBhXDw==").len(), 28);
    assert_eq!(
        websocket_accept_key("x3JJHMbDL1EzLkh9GBhXDw=="),
        "HSmrc0sMlYUkAGmm5OPpG2HaGWk="
    );
}

#[test]
fn big_endian_numbers_are_read_back() {
    let mut out = vec![9u8];
    push_big_endian(&mut out, 0x0102_0304, 4);
    assert_eq!(out, vec![9, 1, 2, 3, 4]);
    assert_eq!(read_big_endian(&out, 1, 5), 0x0102_0304);
    assert_eq!(read_big_endian(&out, 1, 1), 0);

    let mut all: Vec<u8> = Vec::new();
    push_big_endian(&mut all, u64::MAX, 8);
    assert_eq!(read_big_endian(&all, 0, 8), u64::MAX);

    let mut short: Vec<u8> = Vec::new();
    push_big_endian(&mut short, 0x1_0002, 2);
    assert_eq!(short, vec![0, 2]);
}

#[test]
fn identifiers_write_the_nanoseconds_down() {
    assert_eq!(id_at(None), "00000000000000000000000000000000");
    assert_eq!(id_at(Some((0, 255))), "000000000000000000000000000000ff");
    assert_eq!(
        id_at(Some((1_700_000_000, 123_456_789))),
        format!("{:032x}", 1_700_000_000_123_456_789u128)
    );
    assert_eq!(
        id_at(Some((u64::MAX, 999_999_999))),
        format!("{:032x}", u64::MAX as u128 * 1_000_000_000 + 999_999_999)
    );
    assert_ne!(id_at(Some((1, 0))), id_at(Some((0, 999_999_999))));
}

#[test]
fn seconds_of_a_reading() {
    assert_eq!(seconds_at(None), 0);
    assert_eq!(seconds_at(Some((42, 999_999_999))), 42);
}

#[test]
fn new_identifiers_hold_the_present_time() {
    let before = nanos();
    let id = gen_id();
    let after = nanos();
    assert_eq!(id.len(), 32);
    let value = u128::from_str_radix(&id, 16).expect("hexadecimal digits");
    assert!(before <= value && value <= after);
}

#[test]
fn present_time_in_seconds() {
    let before = nanos() / 1_000_000_000;
    let now = now_secs() as u128;
    let after = nanos() / 1_000_000_000;
    assert!(before <= now && now <= after);
}

#[test]
fn codes_are_the_start_of_an_identifier() {
    assert_eq!(code_of("0123456789abcdef", 6), "012345");
    assert_eq!(code_of("0123", 0), "");
    assert_eq!(code_of("0123", 4), "0123");
    assert_eq!(code_of("0123", 9), "0123");
    assert_eq!(gen_code(6), "000000");
    assert_eq!(gen_code(40).len(), 32);
    assert!(gen_code(32).chars().all(|c| c.is_ascii_hexdigit()));
}
