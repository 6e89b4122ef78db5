//! The SHA-1 digest.

use crate::bytes::big_endian;
use crate::bytes::big_endian_value;
use crate::bytes::lemma_big_endian_len;
use crate::bytes::push_big_endian;
use vstd::prelude::*;

verus! {

/// The five words that a digest is made of.
#[derive(Clone, Copy)]
pub struct Words {
    pub a: u32,
    pub b: u32,
    pub c: u32,
    pub d: u32,
    pub e: u32,
}

/// The words that the first block starts from.
pub open spec fn initial() -> Words {
    Words { a: 0x67452301, b: 0xEFCDAB89, c: 0x98BADCFE, d: 0x10325476, e: 0xC3D2E1F0 }
}

/// `x` turned left by `n` bits.
pub open spec fn turned(x: u32, n: u32) -> u32 {
    (x << n) | (x >> ((32 - n) as u32))
}

/// The number of zero bytes between the end mark and the length.
pub open spec fn zeros_after(len: nat) -> nat {
    ((119 - len % 64) % 64) as nat
}

/// The message as it is hashed: the data, the end mark, zero bytes up to eight short of a full
/// block, and the length of the data in bits, counted modulo 2 to the power 64.
pub open spec fn padded(data: Seq<u8>) -> Seq<u8> {
    data + seq![0x80u8] + Seq::new(zeros_after(data.len()), |i: int| 0u8) + big_endian(
        (data.len() * 8) % 0x1_0000_0000_0000_0000,
        8,
    )
}

/// Word `t` of the schedule of a block.
pub open spec fn schedule(block: Seq<u8>, t: int) -> u32
    decreases t,
{
    if t < 16 {
        big_endian_value(block.subrange(4 * t, 4 * t + 4)) as u32
    } else {
        turned(
            schedule(block, t - 3) ^ schedule(block, t - 8) ^ schedule(block, t - 14) ^ schedule(
                block,
                t - 16,
            ),
            1,
        )
    }
}

/// The function that round `t` applies to three of the words.
pub open spec fn mixed(t: int, b: u32, c: u32, d: u32) -> u32 {
    if t < 20 {
        (b & c) | (!b & d)
    } else if 40 <= t < 60 {
        (b & c) | (b & d) | (c & d)
    } else {
        b ^ c ^ d
    }
}

/// The constant of round `t`.
pub open spec fn round_constant(t: int) -> u32 {
    if t < 20 {
        0x5A827999
    } else if t < 40 {
        0x6ED9EBA1
    } else if t < 60 {
        0x8F1BBCDC
    } else {
        0xCA62C1D6
    }
}

/// One round.
pub open spec fn round(h: Words, t: int, w: u32) -> Words {
    Words {
        a: turned(h.a, 5).wrapping_add(mixed(t, h.b, h.c, h.d)).wrapping_add(h.e).wrapping_add(
            round_constant(t),
        ).wrapping_add(w),
        b: h.a,
        c: turned(h.b, 30),
        d: h.c,
        e: h.d,
    }
}

/// The words after the first `t` rounds on a block.
pub open spec fn rounds(h: Words, block: Seq<u8>, t: nat) -> Words
    decreases t,
{
    if t == 0 {
        h
    } else {
        round(rounds(h, block, (t - 1) as nat), t - 1, schedule(block, t - 1))
    }
}

/// The words after a block.
pub open spec fn compressed(h: Words, block: Seq<u8>) -> Words {
    let r = rounds(h, block, 80);
    Words {
        a: h.a.wrapping_add(r.a),
        b: h.b.wrapping_add(r.b),
        c: h.c.wrapping_add(r.c),
        d: h.d.wrapping_add(r.d),
        e: h.e.wrapping_add(r.e),
    }
}

/// The words after the first `n` blocks of a message.
pub open spec fn after_blocks(message: Seq<u8>, n: nat) -> Words
    decreases n,
{
    if n == 0 {
        initial()
    } else {
        compressed(
            after_blocks(message, (n - 1) as nat),
            message.subrange(64 * (n - 1), 64 * n as int),
        )
    }
}

/// The bytes of the five words.
pub open spec fn words_bytes(h: Words) -> Seq<u8> {
    big_endian(h.a as nat, 4) + big_endian(h.b as nat, 4) + big_endian(h.c as nat, 4) + big_endian(
        h.d as nat,
        4,
    ) + big_endian(h.e as nat, 4)
}

/// The SHA-1 digest of the data.
#[verifier::opaque]
pub open spec fn sha1(data: Seq<u8>) -> Seq<u8> {
    let message = padded(data);
    words_bytes(after_blocks(message, message.len() / 64))
}

fn turn(x: u32, n: u32) -> (r: u32)
    requires
        0 < n < 32,
    ensures
        r == turned(x, n),
{
    (x << n) | (x >> (32 - n))
}

#[verifier::rlimit(40)]
fn pad(data: &[u8]) -> (message: Vec<u8>)
    ensures
        message@ == padded(data@),
        message@.len() % 64 == 0,
{
    let mut message: Vec<u8> = Vec::new();
    message.extend_from_slice(data);
    assert(message@ =~= data@);
    let bit_len: u64 = (data.len() as u64).wrapping_mul(8);
    message.push(0x80);
    let ghost marked = data@ + seq![0x80u8];
    let ghost mut zeros: nat = 0;
    assert(message@ =~= marked + Seq::new(zeros, |i: int| 0u8));
    while message.len() % 64 != 56
        invariant
            zeros <= zeros_after(data@.len()),
            marked == data@ + seq![0x80u8],
            message@ == marked + Seq::new(zeros, |i: int| 0u8),
        decreases zeros_after(data@.len()) - zeros,
    {
        message.push(0);
        proof {
            zeros = zeros + 1;
            assert(message@ =~= marked + Seq::new(zeros, |i: int| 0u8));
        }
    }
    proof {
        lemma_big_endian_len(bit_len as nat, 8);
    }
    push_big_endian(&mut message, bit_len, 8);
    assert(zeros == zeros_after(data@.len()));
    assert(bit_len == (data@.len() * 8) % 0x1_0000_0000_0000_0000);
    message
}

#[verifier::rlimit(40)]
fn expand(message: &Vec<u8>, start: usize) -> (w: Vec<u32>)
    requires
        start + 64 <= message@.len(),
    ensures
        w@.len() == 80,
        forall|t: int|
            0 <= t < 80 ==> w@[t] == schedule(message@.subrange(start as int, start + 64), t),
{
    let ghost block = message@.subrange(start as int, start + 64);
    let len: usize = message.len();
    let mut w: Vec<u32> = Vec::new();
    let mut t: usize = 0;
    while t < 16
        invariant
            t <= 16,
            len == message@.len(),
            start + 64 <= len,
            block == message@.subrange(start as int, start + 64),
            w@.len() == t,
            forall|k: int| 0 <= k < t ==> w@[k] == schedule(block, k),
        decreases 16 - t,
    {
        let at: usize = start + 4 * t;
        let b0: u32 = message[at] as u32;
        let b1: u32 = message[at + 1] as u32;
        let b2: u32 = message[at + 2] as u32;
        let b3: u32 = message[at + 3] as u32;
        let word: u32 = b0 * 0x1000000 + b1 * 0x10000 + b2 * 0x100 + b3;
        proof {
            let four = block.subrange(4 * t, 4 * t + 4);
            reveal_with_fuel(big_endian_value, 5);
            assert(four =~= seq![b0 as u8, b1 as u8, b2 as u8, b3 as u8]);
            assert(four.drop_last() =~= seq![b0 as u8, b1 as u8, b2 as u8]);
            assert(four.drop_last().drop_last() =~= seq![b0 as u8, b1 as u8]);
            assert(four.drop_last().drop_last().drop_last() =~= seq![b0 as u8]);
            assert(big_endian_value(four) == word);
        }
        w.push(word);
        t = t + 1;
    }
    while t < 80
        invariant
            16 <= t <= 80,
            w@.len() == t,
            forall|k: int| 0 <= k < t ==> w@[k] == schedule(block, k),
        decreases 80 - t,
    {
        let word: u32 = turn(w[t - 3] ^ w[t - 8] ^ w[t - 14] ^ w[t - 16], 1);
        proof {
            let k = t as int;
            assert(w@[k - 3] == schedule(block, k - 3));
            assert(w@[k - 8] == schedule(block, k - 8));
            assert(w@[k - 14] == schedule(block, k - 14));
            assert(w@[k - 16] == schedule(block, k - 16));
            assert(word == schedule(block, k));
        }
        w.push(word);
        t = t + 1;
    }
    w
}

#[verifier::rlimit(40)]
fn compress(h: Words, message: &Vec<u8>, start: usize) -> (r: Words)
    requires
        start + 64 <= message@.len(),
    ensures
        r == compressed(h, message@.subrange(start as int, start + 64)),
{
    let ghost block = message@.subrange(start as int, start + 64);
    let w = expand(message, start);
    let mut a: u32 = h.a;
    let mut b: u32 = h.b;
    let mut c: u32 = h.c;
    let mut d: u32 = h.d;
    let mut e: u32 = h.e;
    let mut t: usize = 0;
    while t < 80
        invariant
            t <= 80,
            w@.len() == 80,
            forall|k: int| 0 <= k < 80 ==> w@[k] == schedule(block, k),
            (Words { a, b, c, d, e }) == rounds(h, block, t as nat),
        decreases 80 - t,
    {
        let f: u32;
        let k: u32;
        if t < 20 {
            f = (b & c) | (!b & d);
            k = 0x5A827999;
        } else if t < 40 {
            f = b ^ c ^ d;
            k = 0x6ED9EBA1;
        } else if t < 60 {
            f = (b & c) | (b & d) | (c & d);
            k = 0x8F1BBCDC;
        } else {
            f = b ^ c ^ d;
            k = 0xCA62C1D6;
        }
        let next: u32 = turn(a, 5).wrapping_add(f).wrapping_add(e).wrapping_add(k).wrapping_add(
            w[t],
        );
        e = d;
        d = c;
        c = turn(b, 30);
        b = a;
        a = next;
        t = t + 1;
    }
    Words {
        a: h.a.wrapping_add(a),
        b: h.b.wrapping_add(b),
        c: h.c.wrapping_add(c),
        d: h.d.wrapping_add(d),
        e: h.e.wrapping_add(e),
    }
}

/// The SHA-1 digest of `data`.
#[verifier::rlimit(40)]
pub fn sha1_digest(data: &[u8]) -> (digest: [u8; 20])
    ensures
        digest@ == sha1(data@),
{
    let message = pad(data);
    let mut h = Words { a: 0x67452301, b: 0xEFCDAB89, c: 0x98BADCFE, d: 0x10325476, e: 0xC3D2E1F0 };
    let mut start: usize = 0;
    let ghost mut n: nat = 0;
    while start < message.len()
        invariant
            start == 64 * n,
            start <= message@.len(),
            message@.len() % 64 == 0,
            h == after_blocks(message@, n),
        decreases message@.len() - start,
    {
        h = compress(h, &message, start);
        start = start + 64;
        proof {
            n = n + 1;
        }
    }
    let mut bytes: Vec<u8> = Vec::new();
    push_big_endian(&mut bytes, h.a as u64, 4);
    push_big_endian(&mut bytes, h.b as u64, 4);
    push_big_endian(&mut bytes, h.c as u64, 4);
    push_big_endian(&mut bytes, h.d as u64, 4);
    push_big_endian(&mut bytes, h.e as u64, 4);
    proof {
        assert(n == message@.len() / 64);
        reveal(sha1);
        lemma_big_endian_len(h.a as nat, 4);
        lemma_big_endian_len(h.b as nat, 4);
        lemma_big_endian_len(h.c as nat, 4);
        lemma_big_endian_len(h.d as nat, 4);
        lemma_big_endian_len(h.e as nat, 4);
        assert(bytes@ =~= sha1(data@));
    }
    let mut digest: [u8; 20] = [0u8; 20];
    let mut i: usize = 0;
    while i < 20
        invariant
            i <= 20,
            bytes@.len() == 20,
            forall|k: int| 0 <= k < i ==> digest@[k] == bytes@[k],
        decreases 20 - i,
    {
        digest[i] = bytes[i];
        i = i + 1;
    }
    assert(digest@ =~= bytes@);
    digest
}

/// A digest has twenty bytes.
pub proof fn law_digest_length(data: Seq<u8>)
    ensures
        sha1(data).len() == 20,
{
    reveal(sha1);
    let h = after_blocks(padded(data), padded(data).len() / 64);
    lemma_big_endian_len(h.a as nat, 4);
    lemma_big_endian_len(h.b as nat, 4);
    lemma_big_endian_len(h.c as nat, 4);
    lemma_big_endian_len(h.d as nat, 4);
    lemma_big_endian_len(h.e as nat, 4);
}

} // verus!
