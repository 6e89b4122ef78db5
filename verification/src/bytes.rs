//! Numbers as byte sequences, most significant byte first.

use vstd::prelude::*;

verus! {

/// The last `width` bytes of `n`, most significant byte first.
pub open spec fn big_endian(n: nat, width: nat) -> Seq<u8>
    decreases width,
{
    if width == 0 {
        Seq::empty()
    } else {
        big_endian(n / 256, (width - 1) as nat).push((n % 256) as u8)
    }
}

/// The number whose bytes are `s`, most significant byte first.
pub open spec fn big_endian_value(s: Seq<u8>) -> nat
    decreases s.len(),
{
    if s.len() == 0 {
        0
    } else {
        256 * big_endian_value(s.drop_last()) + s.last() as nat
    }
}

/// 256 to the power `width`.
pub open spec fn byte_range(width: nat) -> nat
    decreases width,
{
    if width == 0 {
        1
    } else {
        256 * byte_range((width - 1) as nat)
    }
}

/// The bytes of a number are as many as were asked for.
pub proof fn lemma_big_endian_len(n: nat, width: nat)
    ensures
        big_endian(n, width).len() == width,
    decreases width,
{
    if width > 0 {
        lemma_big_endian_len(n / 256, (width - 1) as nat);
    }
}

/// Writing a number of at most `width` bytes and reading it back gives the number.
pub proof fn lemma_big_endian_round_trip(n: nat, width: nat)
    requires
        n < byte_range(width),
    ensures
        big_endian_value(big_endian(n, width)) == n,
    decreases width,
{
    if width > 0 {
        lemma_big_endian_round_trip(n / 256, (width - 1) as nat);
        lemma_big_endian_len(n / 256, (width - 1) as nat);
        let s = big_endian(n, width);
        assert(s.drop_last() =~= big_endian(n / 256, (width - 1) as nat));
    }
}

/// The value of `width` bytes is below 256 to the power `width`.
pub proof fn lemma_big_endian_value_bound(s: Seq<u8>)
    ensures
        big_endian_value(s) < byte_range(s.len()),
    decreases s.len(),
{
    if s.len() > 0 {
        lemma_big_endian_value_bound(s.drop_last());
    }
}

/// Appends the last `width` bytes of `n`.
pub fn push_big_endian(out: &mut Vec<u8>, n: u64, width: u32)
    ensures
        final(out)@ == old(out)@ + big_endian(n as nat, width as nat),
    decreases width,
{
    if width > 0 {
        push_big_endian(out, n / 256, width - 1);
        out.push((n % 256) as u8);
    }
    assert(final(out)@ =~= old(out)@ + big_endian(n as nat, width as nat));
}

/// Reads the number that the bytes `from..to` write down.
pub fn read_big_endian(s: &[u8], from: usize, to: usize) -> (n: u64)
    requires
        from <= to <= s@.len(),
        to - from <= 8,
    ensures
        n as nat == big_endian_value(s@.subrange(from as int, to as int)),
{
    let mut n: u64 = 0;
    let mut i: usize = from;
    assert(s@.subrange(from as int, from as int) =~= Seq::<u8>::empty());
    while i < to
        invariant
            from <= i <= to <= s@.len(),
            to - from <= 8,
            n as nat == big_endian_value(s@.subrange(from as int, i as int)),
        decreases to - i,
    {
        proof {
            let done = s@.subrange(from as int, i as int);
            lemma_big_endian_value_bound(done);
            reveal_with_fuel(byte_range, 9);
            assert(done.len() <= 7);
            assert(byte_range(done.len()) <= byte_range(7)) by {
                assert(done.len() == 0 || done.len() == 1 || done.len() == 2 || done.len() == 3
                    || done.len() == 4 || done.len() == 5 || done.len() == 6 || done.len() == 7);
            }
            assert(s@.subrange(from as int, i + 1).drop_last() =~= done);
        }
        n = n * 256 + s[i] as u64;
        i = i + 1;
    }
    n
}

/// One byte more at the end counts once, and all before it 256 times as much.
pub proof fn law_big_endian_by_byte(s: Seq<u8>, n: nat, b: u8, width: nat)
    ensures
        big_endian_value(Seq::<u8>::empty()) == 0,
        big_endian_value(s.push(b)) == 256 * big_endian_value(s) + b,
        big_endian(n, 0) == Seq::<u8>::empty(),
        big_endian(256 * n + b as nat, width + 1) == big_endian(n, width).push(b),
{
    assert(s.push(b).drop_last() =~= s);
    assert((256 * n + b as nat) / 256 == n);
    assert((256 * n + b as nat) % 256 == b as nat);
}

/// The bytes of the number that bytes stand for are those bytes.
pub proof fn law_big_endian_value_round_trip(s: Seq<u8>)
    ensures
        big_endian(big_endian_value(s), s.len()) == s,
    decreases s.len(),
{
    if s.len() > 0 {
        let front = s.drop_last();
        law_big_endian_value_round_trip(front);
        law_big_endian_by_byte(front, big_endian_value(front), s.last(), front.len());
        assert(front.push(s.last()) =~= s);
    } else {
        assert(s =~= Seq::<u8>::empty());
    }
}

} // verus!
