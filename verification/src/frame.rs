//! WebSocket frames.

use crate::bytes::big_endian;
use crate::bytes::big_endian_value;
use crate::bytes::byte_range;
use crate::bytes::lemma_big_endian_len;
use crate::bytes::lemma_big_endian_round_trip;
use crate::bytes::push_big_endian;
use crate::bytes::read_big_endian;
use vstd::prelude::*;
use vstd::utf8::encode_utf8;

verus! {

/// A frame as the other side meant it: the payload is unmasked.
pub struct WsFrame {
    pub opcode: u8,
    pub payload: Vec<u8>,
}

/// What a frame holds.
pub struct FrameView {
    pub opcode: u8,
    pub payload: Seq<u8>,
}

impl View for WsFrame {
    type V = FrameView;

    open spec fn view(&self) -> FrameView {
        FrameView { opcode: self.opcode, payload: self.payload@ }
    }
}

/// How far the bytes that came in reach.
pub enum FrameStep {
    /// The frame is not complete; this many bytes have to be read next.
    Need(u64),
    /// A frame, and the number of bytes that it took.
    Frame(WsFrame, usize),
}

// ---------------------------------------------------------------------------
// Writing
// ---------------------------------------------------------------------------

/// The bytes that give the length of a payload; `mask` is 128 where a masking key follows, else 0.
pub open spec fn length_field(len: nat, mask: nat) -> Seq<u8> {
    if len <= 125 {
        seq![(mask + len) as u8]
    } else if len <= 0xffff {
        seq![(mask + 126) as u8] + big_endian(len, 2)
    } else {
        seq![(mask + 127) as u8] + big_endian(len, 8)
    }
}

/// A final frame without masking.
pub open spec fn frame_bytes(opcode: u8, payload: Seq<u8>) -> Seq<u8> {
    seq![0x80u8 | opcode] + length_field(payload.len(), 0) + payload
}

/// The final frame that a client sends, with the payload masked by `key`.
pub open spec fn masked_frame_bytes(opcode: u8, payload: Seq<u8>, key: Seq<u8>) -> Seq<u8> {
    seq![0x80u8 | opcode] + length_field(payload.len(), 128) + key + masked(payload, key)
}

/// The payload with each byte combined with the byte of the key whose turn it is.
pub open spec fn masked(payload: Seq<u8>, key: Seq<u8>) -> Seq<u8> {
    Seq::new(payload.len(), |i: int| payload[i] ^ key[i % 4])
}

/// The bytes of a final frame without masking.
pub fn write_ws_frame(opcode: u8, payload: &[u8]) -> (frame: Vec<u8>)
    ensures
        frame@ == frame_bytes(opcode, payload@),
{
    let mut frame: Vec<u8> = Vec::new();
    frame.push(0x80 | opcode);
    let len: usize = payload.len();
    if len <= 125 {
        frame.push(len as u8);
    } else if len <= 0xffff {
        frame.push(126);
        push_big_endian(&mut frame, len as u64, 2);
    } else {
        frame.push(127);
        push_big_endian(&mut frame, len as u64, 8);
    }
    assert(frame@ =~= seq![0x80u8 | opcode] + length_field(payload@.len(), 0));
    frame.extend_from_slice(payload);
    assert(frame@ =~= frame_bytes(opcode, payload@));
    frame
}

/// The bytes of a text frame.
pub fn write_ws_text(text: &str) -> (frame: Vec<u8>)
    ensures
        frame@ == frame_bytes(1, encode_utf8(text@)),
{
    write_ws_frame(1, text.as_bytes())
}

/// The bytes of a close frame.
pub fn write_ws_close() -> (frame: Vec<u8>)
    ensures
        frame@ == frame_bytes(8, Seq::<u8>::empty()),
{
    let empty: Vec<u8> = Vec::new();
    write_ws_frame(8, &empty)
}

// ---------------------------------------------------------------------------
// Reading
// ---------------------------------------------------------------------------

/// The number of bytes that extend the length in the second byte.
pub open spec fn extension(second: u8) -> nat {
    if second % 128 == 126 {
        2
    } else if second % 128 == 127 {
        8
    } else {
        0
    }
}

/// The number of bytes of the masking key.
pub open spec fn key_length(second: u8) -> nat {
    if second >= 128 {
        4
    } else {
        0
    }
}

/// The length of the payload, for bytes that reach past the extended length.
pub open spec fn payload_length(b: Seq<u8>) -> nat {
    if extension(b[1]) == 0 {
        (b[1] % 128) as nat
    } else {
        big_endian_value(b.subrange(2, 2int + extension(b[1])))
    }
}

/// The position at which the payload starts.
pub open spec fn payload_start(b: Seq<u8>) -> nat {
    2 + extension(b[1]) + key_length(b[1])
}

/// The payload of the complete frame that starts at the first byte.
pub open spec fn payload_of(b: Seq<u8>) -> Seq<u8> {
    let start = payload_start(b) as int;
    let raw = b.subrange(start, start + payload_length(b));
    if b[1] >= 128 {
        masked(raw, b.subrange(start - 4, start))
    } else {
        raw
    }
}

/// The number of bytes to read next, or 0 where a frame is complete: first the two bytes of the
/// head, then the extended length, then the masking key, then the payload.
pub open spec fn missing(b: Seq<u8>) -> nat {
    if b.len() < 2 {
        (2 - b.len()) as nat
    } else if b.len() < 2 + extension(b[1]) {
        (2 + extension(b[1]) - b.len()) as nat
    } else if b.len() < payload_start(b) {
        (payload_start(b) - b.len()) as nat
    } else if b.len() < payload_start(b) + payload_length(b) {
        (payload_start(b) + payload_length(b) - b.len()) as nat
    } else {
        0
    }
}

/// The frame at the start of the bytes, where it is complete, with the number of its bytes.
pub open spec fn decoded(b: Seq<u8>) -> Option<(FrameView, nat)> {
    if missing(b) > 0 {
        None
    } else {
        Some(
            (
                FrameView { opcode: b[0] & 0x0f, payload: payload_of(b) },
                payload_start(b) + payload_length(b),
            ),
        )
    }
}

/// Reads the frame at the start of the bytes that came in, or tells how many bytes to read next.
pub fn read_ws_frame(received: &[u8]) -> (r: FrameStep)
    ensures
        match r {
            FrameStep::Need(n) => n > 0 && n as nat == missing(received@) && decoded(
                received@,
            ) is None,
            FrameStep::Frame(frame, used) => decoded(received@) == Some((frame@, used as nat))
                && used <= received@.len(),
        },
{
    let len: usize = received.len();
    if len < 2 {
        return FrameStep::Need((2 - len) as u64);
    }
    let opcode: u8 = received[0] & 0x0f;
    let second: u8 = received[1];
    let short: u8 = second % 128;
    let extra: usize = if short == 126 {
        2
    } else if short == 127 {
        8
    } else {
        0
    };
    if len < 2 + extra {
        return FrameStep::Need((2 + extra - len) as u64);
    }
    let payload_len: u64 = if extra == 0 {
        short as u64
    } else {
        read_big_endian(received, 2, 2 + extra)
    };
    let is_masked: bool = second >= 128;
    let start: usize = if is_masked {
        2 + extra + 4
    } else {
        2 + extra
    };
    if len < start {
        return FrameStep::Need((start - len) as u64);
    }
    let there: usize = len - start;
    if (there as u64) < payload_len {
        return FrameStep::Need(payload_len - there as u64);
    }
    let size: usize = payload_len as usize;
    let ghost raw = received@.subrange(start as int, start + size);
    let ghost key = received@.subrange(start - 4, start as int);
    let mut payload: Vec<u8> = Vec::new();
    let mut i: usize = 0;
    while i < size
        invariant
            i <= size,
            start + size <= len,
            len == received@.len(),
            start >= 2,
            is_masked ==> start >= 6,
            raw == received@.subrange(start as int, start + size),
            key == received@.subrange(start - 4, start as int),
            payload@.len() == i,
            forall|k: int|
                0 <= k < i ==> payload@[k] == if is_masked {
                    raw[k] ^ key[k % 4]
                } else {
                    raw[k]
                },
        decreases size - i,
    {
        let byte: u8 = received[start + i];
        if is_masked {
            payload.push(byte ^ received[start - 4 + i % 4]);
        } else {
            payload.push(byte);
        }
        i = i + 1;
    }
    assert(payload@ =~= payload_of(received@));
    FrameStep::Frame(WsFrame { opcode, payload }, start + size)
}

// ---------------------------------------------------------------------------
// Laws
// ---------------------------------------------------------------------------

/// The length field is read back as the length, whatever bytes follow.
proof fn lemma_length_field(first: u8, len: nat, mask: nat, rest: Seq<u8>)
    requires
        len < 0x1_0000_0000_0000_0000,
        mask == 0 || mask == 128,
    ensures
        ({
            let b = seq![first] + length_field(len, mask) + rest;
            &&& b[0] == first
            &&& 2 + extension(b[1]) == 1 + length_field(len, mask).len()
            &&& payload_length(b) == len
            &&& (b[1] >= 128 <==> mask == 128)
        }),
{
    let b = seq![first] + length_field(len, mask) + rest;
    reveal_with_fuel(byte_range, 9);
    if len <= 125 {
    } else if len <= 0xffff {
        lemma_big_endian_len(len, 2);
        lemma_big_endian_round_trip(len, 2);
        assert(b.subrange(2, 4) =~= big_endian(len, 2));
    } else {
        lemma_big_endian_len(len, 8);
        lemma_big_endian_round_trip(len, 8);
        assert(b.subrange(2, 10) =~= big_endian(len, 8));
    }
}

/// A frame that was written is read back: the same opcode, the same payload, and not a byte more
/// than the frame has.
pub proof fn law_frame_round_trip(opcode: u8, payload: Seq<u8>, rest: Seq<u8>)
    requires
        opcode < 16,
        payload.len() < 0x1_0000_0000_0000_0000,
    ensures
        decoded(frame_bytes(opcode, payload) + rest) == Some(
            (FrameView { opcode, payload }, frame_bytes(opcode, payload).len()),
        ),
{
    let frame = frame_bytes(opcode, payload);
    let b = frame + rest;
    assert(opcode < 16 ==> (0x80u8 | opcode) & 0x0f == opcode) by (bit_vector);
    lemma_length_field(0x80u8 | opcode, payload.len(), 0, payload + rest);
    assert(b =~= seq![0x80u8 | opcode] + length_field(payload.len(), 0) + (payload + rest));
    assert(payload_of(b) =~= payload);
}

/// A frame that a client masked is read back as the client meant it.
pub proof fn law_masked_frame_round_trip(
    opcode: u8,
    payload: Seq<u8>,
    key: Seq<u8>,
    rest: Seq<u8>,
)
    requires
        opcode < 16,
        payload.len() < 0x1_0000_0000_0000_0000,
        key.len() == 4,
    ensures
        decoded(masked_frame_bytes(opcode, payload, key) + rest) == Some(
            (FrameView { opcode, payload }, masked_frame_bytes(opcode, payload, key).len()),
        ),
{
    let frame = masked_frame_bytes(opcode, payload, key);
    let b = frame + rest;
    let after = key + masked(payload, key) + rest;
    assert(opcode < 16 ==> (0x80u8 | opcode) & 0x0f == opcode) by (bit_vector);
    lemma_length_field(0x80u8 | opcode, payload.len(), 128, after);
    assert(b =~= seq![0x80u8 | opcode] + length_field(payload.len(), 128) + after);
    let start = payload_start(b) as int;
    assert(b.subrange(start - 4, start) =~= key);
    assert(b.subrange(start, start + payload.len()) =~= masked(payload, key));
    assert forall|i: int| 0 <= i < payload.len() implies payload_of(b)[i] == payload[i] by {
        let p = payload[i];
        let k = key[i % 4];
        assert((p ^ k) ^ k == p) by (bit_vector);
    }
    assert(payload_of(b) =~= payload);
}

/// As long as a frame is not complete there are bytes to read next, and reading them never goes
/// past the end of the frame.
pub proof fn law_reading_stays_inside_frame(b: Seq<u8>, n: int)
    requires
        decoded(b) matches Some((_, used)) && used == b.len(),
        0 <= n < b.len(),
    ensures
        decoded(b.take(n)) is None,
        0 < missing(b.take(n)) <= b.len() - n,
{
    let part = b.take(n);
    if n >= 2 + extension(b[1]) && n >= 2 {
        assert(part.subrange(2, 2int + extension(b[1])) =~= b.subrange(2, 2int + extension(b[1])));
    }
}

/// Every frame that is written is final, not masked, and tells the length of its payload in one,
/// three or nine bytes, the fewest that can hold it; the payload follows as it is.
pub proof fn law_written_frame(opcode: u8, payload: Seq<u8>)
    requires
        payload.len() < 0x1_0000_0000_0000_0000,
    ensures
        ({
            let b = frame_bytes(opcode, payload);
            let n = payload.len();
            &&& opcode < 16 ==> b[0] == 128 + opcode
            &&& b[0] & 0x80 == 0x80
            &&& b[0] % 128 == opcode % 128
            &&& n <= 125 ==> b[1] == n && b.skip(2) == payload
            &&& 125 < n <= 65535 ==> b[1] == 126 && 256 * b[2] + b[3] == n && b.skip(4) == payload
            &&& 65535 < n ==> b[1] == 127 && big_endian_value(b.subrange(2, 10)) == n && b.skip(10)
                == payload
        }),
{
    let b = frame_bytes(opcode, payload);
    let n = payload.len();
    assert((opcode < 16 ==> 0x80u8 | opcode == 128 + opcode) && (0x80u8 | opcode) & 0x80 == 0x80
        && (0x80u8 | opcode) % 128 == opcode % 128) by (bit_vector);
    reveal_with_fuel(byte_range, 9);
    if n <= 125 {
        assert(b.skip(2) =~= payload);
    } else if n <= 65535 {
        lemma_big_endian_len(n, 2);
        lemma_big_endian_round_trip(n, 2);
        let field = big_endian(n, 2);
        reveal_with_fuel(big_endian_value, 3);
        assert(field.drop_last().drop_last() =~= Seq::<u8>::empty());
        assert(b[2] == field[0] && b[3] == field[1]);
        assert(b.skip(4) =~= payload);
    } else {
        lemma_big_endian_len(n, 8);
        lemma_big_endian_round_trip(n, 8);
        assert(b.subrange(2, 10) =~= big_endian(n, 8));
        assert(b.skip(10) =~= payload);
    }
}

/// What comes in is read as it is laid out: two bytes, the bytes that extend the length, the
/// masking key, the payload. Each byte of a masked payload is combined with the byte of the key
/// whose turn it is. What follows the frame is left alone.
pub proof fn law_read_frame(
    first: u8,
    second: u8,
    longer: Seq<u8>,
    key: Seq<u8>,
    body: Seq<u8>,
    rest: Seq<u8>,
)
    requires
        second % 128 == 126 ==> longer.len() == 2,
        second % 128 == 127 ==> longer.len() == 8,
        second % 128 < 126 ==> longer.len() == 0,
        second >= 128 ==> key.len() == 4,
        second < 128 ==> key.len() == 0,
        body.len() == if longer.len() == 0 {
            (second % 128) as nat
        } else {
            big_endian_value(longer)
        },
    ensures
        ({
            let b = seq![first, second] + longer + key + body + rest;
            &&& decoded(b) matches Some((frame, used))
            &&& frame.opcode == first % 16
            &&& frame.payload.len() == body.len()
            &&& forall|i: int|
                0 <= i < body.len() ==> #[trigger] frame.payload[i] == if second >= 128 {
                    body[i] ^ key[i % 4]
                } else {
                    body[i]
                }
            &&& used == 2 + longer.len() + key.len() + body.len()
        }),
{
    let b = seq![first, second] + longer + key + body + rest;
    assert(first & 0x0f == first % 16) by (bit_vector);
    assert(b.subrange(2, 2int + longer.len()) =~= longer);
    let start = 2int + longer.len() + key.len();
    assert(b.subrange(start, start + body.len()) =~= body);
    if second >= 128 {
        assert(b.subrange(start - 4, start) =~= key);
    }
}

/// A frame is asked for part by part: as long as one of its parts is not complete, just the bytes
/// that this part lacks are asked for, and there is no frame yet.
pub proof fn law_parts_are_asked_for(
    first: u8,
    second: u8,
    longer: Seq<u8>,
    key: Seq<u8>,
    body: Seq<u8>,
    n: int,
)
    requires
        second % 128 == 126 ==> longer.len() == 2,
        second % 128 == 127 ==> longer.len() == 8,
        second % 128 < 126 ==> longer.len() == 0,
        second >= 128 ==> key.len() == 4,
        second < 128 ==> key.len() == 0,
        body.len() == if longer.len() == 0 {
            (second % 128) as nat
        } else {
            big_endian_value(longer)
        },
        0 <= n < 2 + longer.len() + key.len() + body.len(),
    ensures
        ({
            let b = (seq![first, second] + longer + key + body).take(n);
            &&& decoded(b) is None
            &&& missing(b) == if n < 2 {
                2 - n
            } else if n < 2 + longer.len() {
                2 + longer.len() - n
            } else if n < 2 + longer.len() + key.len() {
                2 + longer.len() + key.len() - n
            } else {
                2 + longer.len() + key.len() + body.len() - n
            }
        }),
{
    let b = (seq![first, second] + longer + key + body).take(n);
    if n >= 2 {
        assert(b[1] == second);
    }
    if n >= 2 + longer.len() {
        assert(b.subrange(2, 2int + longer.len()) =~= longer);
    }
}

} // verus!
