//! The key that answers a WebSocket handshake.

use crate::base64::base64_encode;
use crate::base64::encoded;
use crate::base64::law_base64_length;
use crate::sha1::law_digest_length;
use crate::sha1::sha1;
use crate::sha1::sha1_digest;
use vstd::prelude::*;
use vstd::utf8::encode_utf8;
use vstd::utf8::is_ascii_chars;
use vstd::utf8::is_ascii_chars_encode_utf8;

verus! {

/// The value of `Sec-WebSocket-Accept` for a client's key: the base64 text of the digest of the
/// key and the fixed identifier that follows it.
#[verifier::opaque]
pub open spec fn accept_key(key: Seq<char>) -> Seq<char> {
    encoded(sha1(encode_utf8(key) + encode_utf8("258EAFA5-E914-47DA-95CA-C5AB0DC85B11"@)))
}

/// The value of `Sec-WebSocket-Accept` for a client's key.
pub fn websocket_accept_key(sec_websocket_key: &str) -> (r: String)
    ensures
        r@ == accept_key(sec_websocket_key@),
{
    let mut input: Vec<u8> = Vec::new();
    input.extend_from_slice(sec_websocket_key.as_bytes());
    input.extend_from_slice("258EAFA5-E914-47DA-95CA-C5AB0DC85B11".as_bytes());
    assert(input@ =~= encode_utf8(sec_websocket_key@) + encode_utf8(
        "258EAFA5-E914-47DA-95CA-C5AB0DC85B11"@,
    ));
    proof {
        reveal(accept_key);
    }
    let digest = sha1_digest(&input);
    base64_encode(&digest)
}

/// Every key is answered with twenty-eight characters.
pub proof fn law_accept_key_length(key: Seq<char>)
    ensures
        accept_key(key).len() == 28,
{
    reveal(accept_key);
    let input = encode_utf8(key) + encode_utf8("258EAFA5-E914-47DA-95CA-C5AB0DC85B11"@);
    law_digest_length(input);
    law_base64_length(sha1(input));
}

/// The key is hashed as it came: the answer is the base64 text of the digest of the bytes of the
/// key, unchanged, and the thirty-six bytes of the fixed identifier behind them.
#[verifier::rlimit(40)]
pub proof fn law_accept_key(key: Seq<char>, input: Seq<u8>)
    requires
        input.len() == encode_utf8(key).len() + 36,
        encode_utf8(key).is_prefix_of(input),
        input.skip(encode_utf8(key).len() as int) == seq![
            50u8, 53, 56, 69, 65, 70, 65, 53, 45, 69, 57, 49,
            52, 45, 52, 55, 68, 65, 45, 57, 53, 67, 65, 45,
            67, 53, 65, 66, 48, 68, 67, 56, 53, 66, 49, 49,
        ],
    ensures
        accept_key(key) == encoded(sha1(input)),
{
    reveal(accept_key);
    let fixed = "258EAFA5-E914-47DA-95CA-C5AB0DC85B11"@;
    reveal_strlit("258EAFA5-E914-47DA-95CA-C5AB0DC85B11");
    assert(is_ascii_chars(fixed));
    is_ascii_chars_encode_utf8(fixed);
    let n = encode_utf8(key).len() as int;
    assert(input.skip(n) =~= encode_utf8(fixed));
    assert(input.take(n) =~= encode_utf8(key));
    assert(input =~= encode_utf8(key) + encode_utf8(fixed));
}

} // verus!
