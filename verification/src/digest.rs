//! What a SHA-1 digest is, as a relation between the data and the digest.

use crate::bytes::big_endian;
use crate::bytes::big_endian_value;
use crate::bytes::byte_range;
use crate::bytes::law_big_endian_value_round_trip;
use crate::bytes::lemma_big_endian_len;
use crate::bytes::lemma_big_endian_round_trip;
use crate::sha1::after_blocks;
use crate::sha1::compressed;
use crate::sha1::initial;
use crate::sha1::mixed;
use crate::sha1::padded;
use crate::sha1::round;
use crate::sha1::round_constant;
use crate::sha1::rounds;
use crate::sha1::schedule;
use crate::sha1::sha1;
use crate::sha1::turned;
use crate::sha1::words_bytes;
use crate::sha1::zeros_after;
use crate::sha1::Words;
use vstd::prelude::*;

verus! {

/// `message` is the data made up to whole blocks: the byte 0x80 follows the data, and as few zero
/// bytes as possible before the eight bytes that count the bits of the data.
pub open spec fn is_padding(data: Seq<u8>, message: Seq<u8>) -> bool {
    &&& message.len() % 64 == 0
    &&& data.len() + 9 <= message.len() < data.len() + 9 + 64
    &&& data.is_prefix_of(message)
    &&& message[data.len() as int] == 0x80
    &&& forall|i: int| data.len() < i < message.len() - 8 ==> message[i] == 0
    &&& big_endian_value(message.skip(message.len() - 8)) == (data.len() * 8)
        % 0x1_0000_0000_0000_0000
}

/// `w` are the eighty words of the block that starts at `start`.
#[verifier::opaque]
pub open spec fn is_schedule(message: Seq<u8>, start: int, w: Seq<u32>) -> bool {
    &&& w.len() == 80
    &&& forall|t: int|
        0 <= t < 16 ==> #[trigger] w[t] == message[start + 4 * t] * 0x1000000 + message[start + 4
            * t + 1] * 0x10000 + message[start + 4 * t + 2] * 0x100 + message[start + 4 * t + 3]
    &&& forall|t: int|
        16 <= t < 80 ==> {
            let x = w[t - 3] ^ w[t - 8] ^ w[t - 14] ^ w[t - 16];
            #[trigger] w[t] == (x << 1u32) | (x >> 31u32)
        }
}

/// `y` are the five words that round `t` makes of `x` with the word `w`.
pub open spec fn follows(t: int, w: u32, x: Words, y: Words) -> bool {
    let f = if t < 20 {
        (x.b & x.c) | (!x.b & x.d)
    } else if 40 <= t < 60 {
        (x.b & x.c) | (x.b & x.d) | (x.c & x.d)
    } else {
        x.b ^ x.c ^ x.d
    };
    let k: u32 = if t < 20 {
        0x5A827999
    } else if t < 40 {
        0x6ED9EBA1
    } else if t < 60 {
        0x8F1BBCDC
    } else {
        0xCA62C1D6
    };
    &&& y.a as int == (((x.a << 5u32) | (x.a >> 27u32)) + f + x.e + k + w) % 0x1_0000_0000
    &&& y.b == x.a
    &&& y.c == (x.b << 30u32) | (x.b >> 2u32)
    &&& y.d == x.c
    &&& y.e == x.d
}

/// `v` are the five words before the first round and after each of the eighty rounds on a block.
#[verifier::opaque]
pub open spec fn is_course(w: Seq<u32>, v: Seq<Words>) -> bool {
    &&& v.len() == 81
    &&& forall|t: int| 0 <= t < 80 ==> follows(t, w[t], v[t], #[trigger] v[t + 1])
}

/// `z` is the sum of `x` and `y`, word by word.
#[verifier::opaque]
pub open spec fn is_sum(x: Words, y: Words, z: Words) -> bool {
    &&& z.a as int == (x.a + y.a) % 0x1_0000_0000
    &&& z.b as int == (x.b + y.b) % 0x1_0000_0000
    &&& z.c as int == (x.c + y.c) % 0x1_0000_0000
    &&& z.d as int == (x.d + y.d) % 0x1_0000_0000
    &&& z.e as int == (x.e + y.e) % 0x1_0000_0000
}

/// The digest of data is what the computation on its padded blocks ends with: the message padded,
/// the words of each block, the five words through each of its rounds, and their sums from block
/// to block. Whatever meets these relations gives the digest.
#[verifier::rlimit(40)]
pub proof fn law_digest(
    data: Seq<u8>,
    message: Seq<u8>,
    w: Seq<Seq<u32>>,
    v: Seq<Seq<Words>>,
    h: Seq<Words>,
)
    requires
        is_padding(data, message),
        h.len() == message.len() / 64 + 1,
        h[0] == (Words {
            a: 0x67452301,
            b: 0xEFCDAB89,
            c: 0x98BADCFE,
            d: 0x10325476,
            e: 0xC3D2E1F0,
        }),
        forall|n: int|
            0 <= n < message.len() / 64 ==> is_schedule(message, 64 * n, #[trigger] w[n]),
        forall|n: int| 0 <= n < message.len() / 64 ==> is_course(w[n], #[trigger] v[n]),
        forall|n: int| 0 <= n < message.len() / 64 ==> (#[trigger] v[n])[0] == h[n],
        forall|n: int|
            0 <= n < message.len() / 64 ==> is_sum(h[n], (#[trigger] v[n])[80], h[n + 1]),
    ensures
        sha1(data).len() == 20,
        big_endian_value(sha1(data).subrange(0, 4)) == h.last().a,
        big_endian_value(sha1(data).subrange(4, 8)) == h.last().b,
        big_endian_value(sha1(data).subrange(8, 12)) == h.last().c,
        big_endian_value(sha1(data).subrange(12, 16)) == h.last().d,
        big_endian_value(sha1(data).subrange(16, 20)) == h.last().e,
{
    lemma_padding(data, message);
    let n = message.len() / 64;
    lemma_blocks(message, w, v, h, n);
    let e = h.last();
    reveal(sha1);
    assert(sha1(data) == words_bytes(e));
    reveal_with_fuel(byte_range, 5);
    lemma_big_endian_len(e.a as nat, 4);
    lemma_big_endian_len(e.b as nat, 4);
    lemma_big_endian_len(e.c as nat, 4);
    lemma_big_endian_len(e.d as nat, 4);
    lemma_big_endian_len(e.e as nat, 4);
    lemma_big_endian_round_trip(e.a as nat, 4);
    lemma_big_endian_round_trip(e.b as nat, 4);
    lemma_big_endian_round_trip(e.c as nat, 4);
    lemma_big_endian_round_trip(e.d as nat, 4);
    lemma_big_endian_round_trip(e.e as nat, 4);
    assert(sha1(data).subrange(0, 4) =~= big_endian(e.a as nat, 4));
    assert(sha1(data).subrange(4, 8) =~= big_endian(e.b as nat, 4));
    assert(sha1(data).subrange(8, 12) =~= big_endian(e.c as nat, 4));
    assert(sha1(data).subrange(12, 16) =~= big_endian(e.d as nat, 4));
    assert(sha1(data).subrange(16, 20) =~= big_endian(e.e as nat, 4));
}

/// The number of zero bytes follows from the length of the whole.
proof fn lemma_zeros(len: nat, zeros: nat)
    requires
        (len + 9 + zeros) % 64 == 0,
        zeros < 64,
    ensures
        zeros_after(len) == zeros,
{
}

#[verifier::rlimit(40)]
proof fn lemma_padding(data: Seq<u8>, message: Seq<u8>)
    requires
        is_padding(data, message),
    ensures
        message == padded(data),
{
    let zeros = (message.len() - data.len() - 9) as nat;
    let bits = (data.len() * 8) % 0x1_0000_0000_0000_0000;
    let count = message.skip(message.len() - 8);
    assert(message.len() == data.len() + 9 + zeros);
    lemma_zeros(data.len(), zeros);
    law_big_endian_value_round_trip(count);
    assert(count == big_endian(bits, 8));
    assert(data == message.subrange(0, data.len() as int));
    let middle = Seq::new(zeros, |i: int| 0u8);
    let whole = data + seq![0x80u8] + middle + count;
    assert(whole.len() == message.len());
    assert forall|i: int| 0 <= i < message.len() implies message[i] == whole[i] by {
        if i < data.len() {
            assert(message.subrange(0, data.len() as int)[i] == message[i]);
        } else if i >= message.len() - 8 {
            assert(message[i] == count[i - (message.len() - 8)]);
        }
    }
    assert(message =~= whole);
}

#[verifier::rlimit(40)]
proof fn lemma_schedule(message: Seq<u8>, start: int, w: Seq<u32>, t: int)
    requires
        0 <= start,
        start + 64 <= message.len(),
        is_schedule(message, start, w),
        0 <= t < 80,
    ensures
        schedule(message.subrange(start, start + 64), t) == w[t],
    decreases t,
{
    reveal(is_schedule);
    let block = message.subrange(start, start + 64);
    if t < 16 {
        let four = block.subrange(4 * t, 4 * t + 4);
        let b0 = message[start + 4 * t];
        let b1 = message[start + 4 * t + 1];
        let b2 = message[start + 4 * t + 2];
        let b3 = message[start + 4 * t + 3];
        reveal_with_fuel(big_endian_value, 5);
        assert(four =~= seq![b0, b1, b2, b3]);
        assert(four.drop_last() =~= seq![b0, b1, b2]);
        assert(four.drop_last().drop_last() =~= seq![b0, b1]);
        assert(four.drop_last().drop_last().drop_last() =~= seq![b0]);
        assert(big_endian_value(four) == b0 * 0x1000000 + b1 * 0x10000 + b2 * 0x100 + b3);
        assert(w[t] == b0 * 0x1000000 + b1 * 0x10000 + b2 * 0x100 + b3);
    } else {
        lemma_schedule(message, start, w, t - 3);
        lemma_schedule(message, start, w, t - 8);
        lemma_schedule(message, start, w, t - 14);
        lemma_schedule(message, start, w, t - 16);
        assert(w[t] == w[t]);
    }
}

/// Five words that are added one after the other, each time modulo 2 to the power 32, give their
/// sum modulo 2 to the power 32.
#[verifier::rlimit(40)]
proof fn lemma_sum_of_five(p: u32, q: u32, r: u32, s: u32, t: u32)
    ensures
        p.wrapping_add(q).wrapping_add(r).wrapping_add(s).wrapping_add(t) as int == (p + q + r + s
            + t) % 0x1_0000_0000,
{
    let a = p.wrapping_add(q);
    let b = a.wrapping_add(r);
    let c = b.wrapping_add(s);
    assert(a as int == (p + q) % 0x1_0000_0000);
    assert(b as int == (a + r) % 0x1_0000_0000);
    assert(c as int == (b + s) % 0x1_0000_0000);
}

#[verifier::rlimit(40)]
proof fn lemma_round(t: int, w: u32, x: Words, y: Words)
    requires
        follows(t, w, x, y),
    ensures
        round(x, t, w) == y,
{
    lemma_sum_of_five(
        turned(x.a, 5),
        mixed(t, x.b, x.c, x.d),
        x.e,
        round_constant(t),
        w,
    );
}

#[verifier::rlimit(40)]
proof fn lemma_rounds(message: Seq<u8>, start: int, w: Seq<u32>, v: Seq<Words>, t: nat)
    requires
        0 <= start,
        start + 64 <= message.len(),
        is_schedule(message, start, w),
        is_course(w, v),
        t <= 80,
    ensures
        rounds(v[0], message.subrange(start, start + 64), t) == v[t as int],
    decreases t,
{
    if t > 0 {
        lemma_rounds(message, start, w, v, (t - 1) as nat);
        lemma_schedule(message, start, w, t - 1);
        reveal(is_course);
        assert(follows(t - 1, w[t - 1], v[t - 1], v[t - 1 + 1]));
        lemma_round(t - 1, w[t - 1], v[t - 1], v[t as int]);
    }
}

#[verifier::rlimit(40)]
proof fn lemma_block(message: Seq<u8>, start: int, w: Seq<u32>, v: Seq<Words>, next: Words)
    requires
        0 <= start,
        start + 64 <= message.len(),
        is_schedule(message, start, w),
        is_course(w, v),
        is_sum(v[0], v[80], next),
    ensures
        compressed(v[0], message.subrange(start, start + 64)) == next,
{
    lemma_rounds(message, start, w, v, 80);
    reveal(is_sum);
    let x = v[0];
    let y = v[80];
    assert(x.a.wrapping_add(y.a) == next.a);
    assert(x.b.wrapping_add(y.b) == next.b);
    assert(x.c.wrapping_add(y.c) == next.c);
    assert(x.d.wrapping_add(y.d) == next.d);
    assert(x.e.wrapping_add(y.e) == next.e);
}

#[verifier::rlimit(40)]
proof fn lemma_blocks(
    message: Seq<u8>,
    w: Seq<Seq<u32>>,
    v: Seq<Seq<Words>>,
    h: Seq<Words>,
    n: nat,
)
    requires
        n <= message.len() / 64,
        h.len() == message.len() / 64 + 1,
        h[0] == initial(),
        forall|n: int|
            0 <= n < message.len() / 64 ==> is_schedule(message, 64 * n, #[trigger] w[n]),
        forall|n: int| 0 <= n < message.len() / 64 ==> is_course(w[n], #[trigger] v[n]),
        forall|n: int| 0 <= n < message.len() / 64 ==> (#[trigger] v[n])[0] == h[n],
        forall|n: int|
            0 <= n < message.len() / 64 ==> is_sum(h[n], (#[trigger] v[n])[80], h[n + 1]),
    ensures
        after_blocks(message, n) == h[n as int],
    decreases n,
{
    if n > 0 {
        let m = n - 1;
        lemma_blocks(message, w, v, h, m as nat);
        assert(is_schedule(message, 64 * m, w[m]));
        assert(is_course(w[m], v[m]));
        assert(v[m][0] == h[m]);
        assert(is_sum(h[m], v[m][80], h[m + 1]));
        assert(64 * m + 64 <= message.len());
        lemma_block(message, 64 * m, w[m], v[m], h[m + 1]);
    }
}

} // verus!
