//! Base64 with the standard alphabet and padding.

use vstd::arithmetic::div_mod::lemma_fundamental_div_mod_converse;
use vstd::prelude::*;

verus! {

/// The character that stands for six bits.
pub open spec fn symbol(bits: int) -> char {
    if bits < 26 {
        (bits + 65) as char
    } else if bits < 52 {
        (bits + 71) as char
    } else if bits < 62 {
        (bits - 4) as char
    } else if bits == 62 {
        '+'
    } else {
        '/'
    }
}

/// Three bytes as one number of 24 bits.
pub open spec fn triple(b0: u8, b1: u8, b2: u8) -> int {
    b0 * 0x10000 + b1 * 0x100 + b2
}

/// The four characters for a group of one, two or three bytes; a missing byte counts as zero, and
/// the characters that hold no bit of the group are padding.
pub open spec fn quad(group: Seq<u8>) -> Seq<char> {
    let n = triple(
        group[0],
        if group.len() > 1 {
            group[1]
        } else {
            0
        },
        if group.len() > 2 {
            group[2]
        } else {
            0
        },
    );
    seq![
        symbol(n / 0x40000),
        symbol(n / 0x1000 % 64),
        if group.len() > 1 {
            symbol(n / 0x40 % 64)
        } else {
            '='
        },
        if group.len() > 2 {
            symbol(n % 64)
        } else {
            '='
        },
    ]
}

/// The base64 text of the data: one group of four characters for every three bytes, and one for
/// the bytes that are left over.
pub open spec fn encoded(data: Seq<u8>) -> Seq<char>
    decreases data.len(),
{
    if data.len() == 0 {
        Seq::empty()
    } else if data.len() <= 3 {
        quad(data)
    } else {
        quad(data.take(3)) + encoded(data.skip(3))
    }
}

fn push_symbol(out: &mut String, bits: u32)
    requires
        bits < 64,
    ensures
        final(out)@ == old(out)@.push(symbol(bits as int)),
{
    let b: u8 = bits as u8;
    if b < 26 {
        out.push((b + 65) as char);
    } else if b < 52 {
        out.push((b + 71) as char);
    } else if b < 62 {
        out.push((b - 4) as char);
    } else if b == 62 {
        out.push('+');
    } else {
        out.push('/');
    }
}

/// The first group of the data: three bytes, or those that are left over.
pub open spec fn first_group(data: Seq<u8>) -> Seq<u8> {
    if data.len() <= 3 {
        data
    } else {
        data.take(3)
    }
}

/// Appends the four characters for the group that starts at `at`.
#[verifier::rlimit(40)]
fn push_quad(out: &mut String, data: &[u8], at: usize)
    requires
        at < data@.len(),
    ensures
        final(out)@ == old(out)@ + quad(first_group(data@.skip(at as int))),
{
    let rest: usize = data.len() - at;
    let b0: u32 = data[at] as u32;
    let b1: u32 = if rest > 1 {
        data[at + 1] as u32
    } else {
        0
    };
    let b2: u32 = if rest > 2 {
        data[at + 2] as u32
    } else {
        0
    };
    let n: u32 = b0 * 0x10000 + b1 * 0x100 + b2;
    push_symbol(out, n / 0x40000);
    push_symbol(out, n / 0x1000 % 64);
    if rest > 1 {
        push_symbol(out, n / 0x40 % 64);
    } else {
        out.push('=');
    }
    if rest > 2 {
        push_symbol(out, n % 64);
    } else {
        out.push('=');
    }
}

/// The base64 text of `data`.
#[verifier::rlimit(40)]
pub fn base64_encode(data: &[u8]) -> (r: String)
    ensures
        r@ == encoded(data@),
{
    let len: usize = data.len();
    let mut out = String::new();
    let mut i: usize = 0;
    assert(data@.skip(0) =~= data@);
    while i < len
        invariant
            i <= len,
            len == data@.len(),
            out@ + encoded(data@.skip(i as int)) == encoded(data@),
        decreases len - i,
    {
        let ghost tail = data@.skip(i as int);
        let ghost before = out@;
        push_quad(&mut out, data, i);
        i = if len - i <= 3 {
            len
        } else {
            i + 3
        };
        proof {
            let left = data@.skip(i as int);
            assert(tail.len() > 3 ==> tail.skip(3) =~= left);
            assert(encoded(tail) =~= quad(first_group(tail)) + encoded(left));
            assert(out@ + encoded(left) =~= before + encoded(tail));
        }
    }
    assert(data@.skip(len as int) =~= Seq::<u8>::empty());
    assert(out@ =~= out@ + encoded(data@.skip(i as int)));
    out
}

/// The text has four characters for every three bytes of data, rounded up to whole groups.
pub proof fn law_base64_length(data: Seq<u8>)
    ensures
        encoded(data).len() == 4 * ((data.len() + 2) / 3),
    decreases data.len(),
{
    if data.len() > 3 {
        law_base64_length(data.skip(3));
    }
}

/// The characters for six bits differ from each other and from the padding.
proof fn lemma_symbol_injective(a: int, b: int)
    requires
        0 <= a < 64,
        0 <= b < 64,
    ensures
        symbol(a) == symbol(b) ==> a == b,
        symbol(a) != '=',
        symbol(b) != '=',
{
}

/// The six-bit digits of three bytes.
#[verifier::rlimit(40)]
proof fn lemma_sextets(b0: u8, b1: u8, b2: u8)
    ensures
        triple(b0, b1, b2) / 0x40000 == b0 as int / 4,
        triple(b0, b1, b2) / 0x1000 % 64 == b0 as int % 4 * 16 + b1 as int / 16,
        triple(b0, b1, b2) / 0x40 % 64 == b1 as int % 16 * 4 + b2 as int / 64,
        triple(b0, b1, b2) % 64 == b2 as int % 64,
{
    let low = b1 as int * 0x100 + b2 as int;
    let high = b0 as int;
    assert(high == high / 4 * 4 + high % 4);
    let mid = (high % 4) * 0x10000 + low;
    assert(triple(b0, b1, b2) == high / 4 * 0x40000 + mid);
    assert(0 <= mid < 0x40000);
    lemma_digit(high / 4, mid, 0x40000);
    let part = b1 as int / 16;
    let rest = (b1 as int % 16) * 0x100 + b2 as int;
    let second = high % 4 * 16 + part;
    assert(mid == second * 0x1000 + rest);
    lemma_digit(high / 4 * 64 + second, rest, 0x1000);
    lemma_digit(high / 4, second, 64);
    let third = b1 as int % 16 * 4 + b2 as int / 64;
    assert(rest == third * 0x40 + b2 as int % 64);
    lemma_digit(high / 4 * 0x1000 + second * 64 + third, b2 as int % 64, 0x40);
    lemma_digit(high / 4 * 64 + second, third, 64);
}

/// A quotient and a remainder are told by the number that they make up.
proof fn lemma_digit(q: int, r: int, base: int)
    requires
        0 <= q,
        0 <= r < base,
    ensures
        (q * base + r) / base == q,
        (q * base + r) % base == r,
{
    lemma_fundamental_div_mod_converse(q * base + r, base, q, r);
}

/// Byte `i` of a group, or 0 where the group is shorter.
spec fn byte_of(group: Seq<u8>, i: int) -> int {
    if i < group.len() {
        group[i] as int
    } else {
        0
    }
}

/// The four characters for a group, told by its bytes.
#[verifier::rlimit(40)]
proof fn lemma_quad(group: Seq<u8>)
    requires
        1 <= group.len() <= 3,
    ensures
        quad(group).len() == 4,
        quad(group)[0] == symbol(byte_of(group, 0) / 4),
        quad(group)[1] == symbol(byte_of(group, 0) % 4 * 16 + byte_of(group, 1) / 16),
        quad(group)[2] == if group.len() > 1 {
            symbol(byte_of(group, 1) % 16 * 4 + byte_of(group, 2) / 64)
        } else {
            '='
        },
        quad(group)[3] == if group.len() > 2 {
            symbol(byte_of(group, 2) % 64)
        } else {
            '='
        },
{
    let b1: u8 = if group.len() > 1 {
        group[1]
    } else {
        0
    };
    let b2: u8 = if group.len() > 2 {
        group[2]
    } else {
        0
    };
    lemma_sextets(group[0], b1, b2);
}

/// Bytes are told by their six-bit digits.
#[verifier::rlimit(40)]
proof fn lemma_bytes_of_sextets(b0: int, b1: int, b2: int, c0: int, c1: int, c2: int)
    requires
        0 <= b0 < 256,
        0 <= b1 < 256,
        0 <= b2 < 256,
        0 <= c0 < 256,
        0 <= c1 < 256,
        0 <= c2 < 256,
        b0 / 4 == c0 / 4,
        b0 % 4 * 16 + b1 / 16 == c0 % 4 * 16 + c1 / 16,
    ensures
        b0 == c0,
        b1 / 16 == c1 / 16,
        b1 % 16 * 4 + b2 / 64 == c1 % 16 * 4 + c2 / 64 ==> b1 == c1 && b2 / 64 == c2 / 64 && (b2
            % 64 == c2 % 64 ==> b2 == c2),
{
}

/// Two groups with the same four characters are the same group.
#[verifier::rlimit(40)]
proof fn lemma_quad_injective(x: Seq<u8>, y: Seq<u8>)
    requires
        1 <= x.len() <= 3,
        1 <= y.len() <= 3,
        quad(x) == quad(y),
    ensures
        x == y,
{
    let b0 = byte_of(x, 0);
    let b1 = byte_of(x, 1);
    let b2 = byte_of(x, 2);
    let c0 = byte_of(y, 0);
    let c1 = byte_of(y, 1);
    let c2 = byte_of(y, 2);
    lemma_quad(x);
    lemma_quad(y);
    lemma_symbol_injective(b0 / 4, c0 / 4);
    lemma_symbol_injective(b0 % 4 * 16 + b1 / 16, c0 % 4 * 16 + c1 / 16);
    lemma_symbol_injective(b1 % 16 * 4 + b2 / 64, c1 % 16 * 4 + c2 / 64);
    lemma_symbol_injective(b2 % 64, c2 % 64);
    assert(x.len() == y.len());
    lemma_bytes_of_sextets(b0, b1, b2, c0, c1, c2);
    assert(x =~= y);
}

/// Different data have different base64 texts.
#[verifier::rlimit(40)]
pub proof fn law_base64_injective(x: Seq<u8>, y: Seq<u8>)
    requires
        encoded(x) == encoded(y),
    ensures
        x == y,
    decreases x.len(),
{
    law_base64_length(x);
    law_base64_length(y);
    if x.len() == 0 || y.len() == 0 {
        assert(x =~= y);
    } else {
        let gx = first_group(x);
        let gy = first_group(y);
        assert(encoded(x).take(4) =~= quad(gx));
        assert(encoded(y).take(4) =~= quad(gy));
        lemma_quad_injective(gx, gy);
        if x.len() <= 3 {
            assert(x =~= y);
        } else {
            assert(encoded(x).skip(4) =~= encoded(x.skip(3)));
            assert(encoded(y).skip(4) =~= encoded(y.skip(3)));
            law_base64_injective(x.skip(3), y.skip(3));
            assert(x =~= x.take(3) + x.skip(3));
            assert(y =~= y.take(3) + y.skip(3));
        }
    }
}

/// The characters for six bits are those of the alphabet, in order.
proof fn lemma_alphabet(bits: int)
    requires
        0 <= bits < 64,
    ensures
        symbol(bits) == "ABCDEFGHIJKLMNOPQRSTUVWXYZabcdefghijklmnopqrstuvwxyz0123456789+/"@[bits],
        "ABCDEFGHIJKLMNOPQRSTUVWXYZabcdefghijklmnopqrstuvwxyz0123456789+/"@.len() == 64,
{
    reveal_strlit("ABCDEFGHIJKLMNOPQRSTUVWXYZabcdefghijklmnopqrstuvwxyz0123456789+/");
}

/// Every group of three bytes is written as four characters of the alphabet: six bits each, the
/// highest first. Padding takes the place of the characters that hold no bit of the data.
#[verifier::rlimit(40)]
pub proof fn law_base64_characters(data: Seq<u8>, k: int)
    requires
        0 <= k,
        3 * k < data.len(),
    ensures
        ({
            let alphabet = "ABCDEFGHIJKLMNOPQRSTUVWXYZabcdefghijklmnopqrstuvwxyz0123456789+/"@;
            let text = encoded(data);
            let b0 = data[3 * k] as int;
            let b1 = if 3 * k + 1 < data.len() {
                data[3 * k + 1] as int
            } else {
                0
            };
            let b2 = if 3 * k + 2 < data.len() {
                data[3 * k + 2] as int
            } else {
                0
            };
            &&& text[4 * k] == alphabet[b0 / 4]
            &&& text[4 * k + 1] == alphabet[b0 % 4 * 16 + b1 / 16]
            &&& text[4 * k + 2] == if 3 * k + 1 < data.len() {
                alphabet[b1 % 16 * 4 + b2 / 64]
            } else {
                '='
            }
            &&& text[4 * k + 3] == if 3 * k + 2 < data.len() {
                alphabet[b2 % 64]
            } else {
                '='
            }
        }),
    decreases data.len(),
{
    if k == 0 {
        let group = first_group(data);
        let b0 = data[0] as int;
        let b1 = if data.len() > 1 {
            data[1] as int
        } else {
            0
        };
        let b2 = if data.len() > 2 {
            data[2] as int
        } else {
            0
        };
        assert(encoded(data).take(4) =~= quad(group));
        assert forall|i: int| 0 <= i < 4 implies encoded(data)[i] == quad(group)[i] by {
            assert(encoded(data).take(4)[i] == encoded(data)[i]);
        }
        lemma_quad(group);
        lemma_alphabet(b0 / 4);
        lemma_alphabet(b0 % 4 * 16 + b1 / 16);
        lemma_alphabet(b1 % 16 * 4 + b2 / 64);
        lemma_alphabet(b2 % 64);
    } else {
        let rest = data.skip(3);
        law_base64_characters(rest, k - 1);
        assert(encoded(data).skip(4) =~= encoded(rest));
        law_base64_length(rest);
        let from = 4 * (k - 1);
        assert(encoded(data).skip(4)[from] == encoded(data)[4 * k]);
        assert(encoded(data).skip(4)[from + 1] == encoded(data)[4 * k + 1]);
        assert(encoded(data).skip(4)[from + 2] == encoded(data)[4 * k + 2]);
        assert(encoded(data).skip(4)[from + 3] == encoded(data)[4 * k + 3]);
    }
}

} // verus!
