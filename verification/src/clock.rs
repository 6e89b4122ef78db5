//! The clock, and the identifiers that are made from it.

use crate::text::hex;
use crate::text::hex_digit;
use crate::text::push_hex;
use std::time::SystemTime;
use std::time::UNIX_EPOCH;
use vstd::arithmetic::div_mod::lemma_fundamental_div_mod;
use vstd::prelude::*;
use vstd::set_lib::lemma_int_range;
use vstd::set_lib::lemma_len_subset;
use vstd::set_lib::lemma_map_size;
use vstd::set_lib::set_int_range;
use vstd::string::*;

verus! {

/// Reads the clock with `SystemTime::now` and gives the time since the Unix epoch as whole
/// seconds and nanoseconds, or `None` for a time before the epoch. The nanoseconds are less than
/// a second's worth. Nothing else is said of the time: two readings may differ in any way.
#[verifier::external_body]
fn since_epoch() -> (r: Option<(u64, u32)>)
    ensures
        r matches Some((_, nanos)) ==> nanos < 1_000_000_000,
{
    match SystemTime::now().duration_since(UNIX_EPOCH) {
        Ok(duration) => Some((duration.as_secs(), duration.subsec_nanos())),
        Err(_) => None,
    }
}

/// The seconds since the Unix epoch for a reading of the clock; 0 before the epoch.
pub open spec fn seconds_of(reading: Option<(u64, u32)>) -> u64 {
    match reading {
        Some((secs, _)) => secs,
        None => 0,
    }
}

/// The nanoseconds since the Unix epoch for a reading of the clock; 0 before the epoch.
pub open spec fn nanos_of(reading: Option<(u64, u32)>) -> nat {
    match reading {
        Some((secs, nanos)) => secs as nat * 1_000_000_000 + nanos as nat,
        None => 0,
    }
}

/// A reading that the clock can give.
pub open spec fn is_reading(reading: Option<(u64, u32)>) -> bool {
    reading matches Some((_, nanos)) ==> nanos < 1_000_000_000
}

/// The identifier for a reading of the clock: the nanoseconds in 32 hexadecimal digits.
pub open spec fn id_of(reading: Option<(u64, u32)>) -> Seq<char> {
    hex(nanos_of(reading), 32)
}

/// An identifier that the clock can give.
pub open spec fn is_id(id: Seq<char>) -> bool {
    exists|reading: Option<(u64, u32)>| is_reading(reading) && id == #[trigger] id_of(reading)
}

/// The first `len` characters of an identifier, or all of it.
pub open spec fn shortened(id: Seq<char>, len: nat) -> Seq<char> {
    if len < id.len() {
        id.take(len as int)
    } else {
        id
    }
}

/// A code of `len` characters that the clock can give.
pub open spec fn is_code(code: Seq<char>, len: nat) -> bool {
    exists|id: Seq<char>| is_id(id) && code == #[trigger] shortened(id, len)
}

/// The number of nanoseconds that a reading of the clock can tell apart.
pub open spec fn clock_range() -> nat {
    0x1_0000_0000_0000_0000 * 1_000_000_000
}

/// The identifier for the time `k` nanoseconds after a reading of the clock; the first time
/// follows the last one.
pub open spec fn later_id(reading: Option<(u64, u32)>, k: nat) -> Seq<char> {
    hex((nanos_of(reading) + k) % clock_range(), 32)
}

/// A reading of the clock.
pub fn read_clock() -> (reading: Option<(u64, u32)>)
    ensures
        is_reading(reading),
{
    since_epoch()
}

/// The identifier for the time `k` nanoseconds after a reading of the clock.
pub fn id_after(reading: Option<(u64, u32)>, k: usize) -> (id: String)
    ensures
        id@ == later_id(reading, k as nat),
{
    let nanos: u128 = match reading {
        Some((secs, nanos)) => secs as u128 * 1_000_000_000 + nanos as u128,
        None => 0,
    };
    let mut id = String::new();
    let range: u128 = 18_446_744_073_709_551_616_000_000_000;
    push_hex(&mut id, (nanos + k as u128) % range, 32);
    assert(id@ =~= later_id(reading, k as nat));
    id
}

/// The seconds since the Unix epoch, or 0 where the clock stands before it.
pub fn now_secs() -> (secs: u64)
    ensures
        exists|reading: Option<(u64, u32)>|
            is_reading(reading) && secs == #[trigger] seconds_of(reading),
{
    let reading = since_epoch();
    assert(is_reading(reading));
    seconds_at(reading)
}

/// The seconds since the Unix epoch for a reading of the clock.
pub fn seconds_at(reading: Option<(u64, u32)>) -> (secs: u64)
    ensures
        secs == seconds_of(reading),
{
    match reading {
        Some((secs, _)) => secs,
        None => 0,
    }
}

/// A new identifier: the present time in nanoseconds, as 32 hexadecimal digits.
pub fn gen_id() -> (id: String)
    ensures
        is_id(id@),
{
    let reading = since_epoch();
    let id = id_at(reading);
    assert(is_reading(reading) && id@ == id_of(reading));
    id
}

/// The identifier for a reading of the clock.
pub fn id_at(reading: Option<(u64, u32)>) -> (id: String)
    ensures
        id@ == id_of(reading),
{
    let nanos: u128 = match reading {
        Some((secs, nanos)) => secs as u128 * 1_000_000_000 + nanos as u128,
        None => 0,
    };
    let mut id = String::new();
    push_hex(&mut id, nanos, 32);
    assert(id@ =~= hex(nanos as nat, 32));
    id
}

/// The first `len` characters of a new identifier.
pub fn gen_code(len: usize) -> (code: String)
    ensures
        is_code(code@, len as nat),
{
    let id = gen_id();
    let code = code_of(id.as_str(), len);
    assert(is_id(id@) && code@ == shortened(id@, len as nat));
    code
}

/// The first `len` characters of an identifier.
pub fn code_of(id: &str, len: usize) -> (code: String)
    ensures
        code@ == shortened(id@, len as nat),
{
    let all: usize = id.unicode_len();
    if len < all {
        let part = id.substring_char(0, len);
        assert(id@.subrange(0, len as int) =~= id@.take(len as int));
        part.to_owned()
    } else {
        id.to_owned()
    }
}

/// An identifier is 32 hexadecimal digits.
pub proof fn law_id_shape(id: Seq<char>)
    requires
        is_id(id),
    ensures
        id.len() == 32,
        forall|i: int|
            0 <= i < id.len() ==> '0' <= #[trigger] id[i] <= '9' || 'a' <= id[i] <= 'f',
{
    let reading = choose|reading: Option<(u64, u32)>|
        is_reading(reading) && id == #[trigger] id_of(reading);
    lemma_hex_shape(nanos_of(reading), 32);
}

/// A code has the length that was asked for, up to the 32 characters of an identifier, and is made
/// of hexadecimal digits.
pub proof fn law_code_shape(code: Seq<char>, len: nat)
    requires
        is_code(code, len),
    ensures
        code.len() == if len < 32 {
            len
        } else {
            32
        },
        forall|i: int|
            0 <= i < code.len() ==> '0' <= #[trigger] code[i] <= '9' || 'a' <= code[i] <= 'f',
{
    let id = choose|id: Seq<char>| is_id(id) && code == #[trigger] shortened(id, len);
    law_id_shape(id);
}

/// Different readings of the clock give different identifiers.
pub proof fn law_ids_differ(x: (u64, u32), y: (u64, u32))
    requires
        is_reading(Some(x)),
        is_reading(Some(y)),
        id_of(Some(x)) == id_of(Some(y)),
    ensures
        x == y,
{
    let m = nanos_of(Some(x));
    let n = nanos_of(Some(y));
    lemma_sixteen();
    lemma_hex_injective(m, n, 32);
}

/// 16 to the power `width`.
spec fn hex_range(width: nat) -> nat
    decreases width,
{
    if width == 0 {
        1
    } else {
        16 * hex_range((width - 1) as nat)
    }
}

/// Readings of the clock fit in 32 hexadecimal digits.
proof fn lemma_sixteen()
    ensures
        hex_range(32) > 0xffff_ffff_ffff_ffff * 1_000_000_000 + 0x1_0000_0000,
{
    reveal_with_fuel(hex_range, 33);
}

/// The identifiers for the times after a reading are identifiers, and the first of them is the one
/// of the reading.
pub proof fn lemma_later_id(reading: Option<(u64, u32)>, k: nat)
    ensures
        is_id(later_id(reading, k)),
        is_reading(reading) ==> later_id(reading, 0) == id_of(reading),
{
    let m = (nanos_of(reading) + k) % clock_range();
    let there = Some(((m / 1_000_000_000) as u64, (m % 1_000_000_000) as u32));
    assert(m / 1_000_000_000 < 0x1_0000_0000_0000_0000);
    assert(is_reading(there) && nanos_of(there) == m);
    assert(id_of(there) == later_id(reading, k));
}

/// The identifiers for different times that are less than the range of the clock apart differ.
proof fn lemma_later_ids_differ(reading: Option<(u64, u32)>, j: nat, k: nat)
    requires
        j < k < 0x1_0000_0000_0000_0000,
    ensures
        later_id(reading, j) != later_id(reading, k),
{
    lemma_sixteen();
    let first = nanos_of(reading) + j;
    let second = nanos_of(reading) + k;
    let range = clock_range();
    let a = first % range;
    let b = second % range;
    assert(a != b) by {
        lemma_fundamental_div_mod(first as int, range as int);
        lemma_fundamental_div_mod(second as int, range as int);
        let p = (first / range) as int;
        let q = (second / range) as int;
        assert(a == b ==> range * q - range * p == k - j);
        assert(range * q - range * p != k - j) by (nonlinear_arith)
            requires
                0 < k - j < range,
        ;
    }
    if later_id(reading, j) == later_id(reading, k) {
        lemma_hex_injective(a, b, 32);
    }
}

/// Where the identifiers for `n` times in a row are in use, there are that many in use.
pub proof fn lemma_ids_in_use(used: Set<Seq<char>>, reading: Option<(u64, u32)>, n: nat)
    requires
        used.finite(),
        n <= 0x1_0000_0000_0000_0000,
        forall|j: nat| j < n ==> used.contains(#[trigger] later_id(reading, j)),
    ensures
        n <= used.len(),
{
    let places = set_int_range(0, n as int);
    let id_at_place = |j: int| later_id(reading, j as nat);
    let ids = places.map(id_at_place);
    lemma_int_range(0, n as int);
    assert forall|x: int, y: int|
        places.contains(x) && places.contains(y) && #[trigger] id_at_place(x)
            == #[trigger] id_at_place(y) implies x == y by {
        if x < y {
            lemma_later_ids_differ(reading, x as nat, y as nat);
        } else if y < x {
            lemma_later_ids_differ(reading, y as nat, x as nat);
        }
    }
    lemma_map_size(places, ids, id_at_place);
    assert(ids.subset_of(used));
    lemma_len_subset(ids, used);
}

proof fn lemma_hex_shape(n: nat, width: nat)
    ensures
        hex(n, width).len() == width,
        forall|i: int|
            0 <= i < width ==> '0' <= #[trigger] hex(n, width)[i] <= '9' || 'a' <= hex(
                n,
                width,
            )[i] <= 'f',
    decreases width,
{
    if width > 0 {
        lemma_hex_shape(n / 16, (width - 1) as nat);
    }
}

/// Numbers that fit are told by their hexadecimal digits.
proof fn lemma_hex_injective(m: nat, n: nat, width: nat)
    requires
        m < hex_range(width),
        n < hex_range(width),
        hex(m, width) == hex(n, width),
    ensures
        m == n,
    decreases width,
{
    if width > 0 {
        let w = (width - 1) as nat;
        lemma_hex_shape(m / 16, w);
        lemma_hex_shape(n / 16, w);
        assert(hex(m, width)[w as int] == hex_digit((m % 16) as int));
        assert(hex(n, width)[w as int] == hex_digit((n % 16) as int));
        assert(hex(m, width).drop_last() =~= hex(m / 16, w));
        assert(hex(n, width).drop_last() =~= hex(n / 16, w));
        lemma_hex_injective(m / 16, n / 16, w);
    }
}

/// The number that hexadecimal digits stand for.
pub open spec fn hex_number(s: Seq<char>) -> int
    decreases s.len(),
{
    if s.len() == 0 {
        0
    } else {
        16 * hex_number(s.drop_last()) + if s.last() <= '9' {
            s.last() as int - 48
        } else {
            s.last() as int - 87
        }
    }
}

/// An identifier is the time in nanoseconds: 32 hexadecimal digits that stand for the seconds of
/// the reading and its nanoseconds, or for 0 before the epoch. The times after it follow one by
/// one, the first after the last.
pub proof fn law_id_is_the_time(secs: u64, nanos: u32, k: nat)
    ensures
        id_of(Some((secs, nanos))).len() == 32,
        hex_number(id_of(Some((secs, nanos)))) == secs * 1_000_000_000 + nanos,
        hex_number(id_of(None)) == 0,
        hex_number(later_id(Some((secs, nanos)), k)) == (secs * 1_000_000_000 + nanos + k)
            % 18_446_744_073_709_551_616_000_000_000,
        hex_number(later_id(None, k)) == k as int % 18_446_744_073_709_551_616_000_000_000,
        seconds_of(Some((secs, nanos))) == secs,
        seconds_of(None) == 0,
{
    lemma_sixteen();
    lemma_hex_shape(nanos_of(Some((secs, nanos))), 32);
    lemma_hex_number(nanos_of(Some((secs, nanos))), 32);
    lemma_hex_number(nanos_of(None), 32);
    lemma_hex_number((nanos_of(Some((secs, nanos))) + k) % clock_range(), 32);
    lemma_hex_number((nanos_of(None) + k) % clock_range(), 32);
}

proof fn lemma_hex_number(n: nat, width: nat)
    requires
        n < hex_range(width),
    ensures
        hex_number(hex(n, width)) == n,
    decreases width,
{
    if width > 0 {
        lemma_hex_number(n / 16, (width - 1) as nat);
        assert(hex(n, width).drop_last() =~= hex(n / 16, (width - 1) as nat));
        assert(hex(n, width).last() == hex_digit((n % 16) as int));
    }
}

/// The identifiers are those of the readings after the epoch, and the codes of a length are what
/// they start with.
pub proof fn law_ids_and_codes(id: Seq<char>, code: Seq<char>, len: nat)
    ensures
        is_id(id) <==> exists|secs: u64, nanos: u32|
            nanos < 1_000_000_000 && id == #[trigger] id_of(Some((secs, nanos))),
        is_code(code, len) ==> exists|whole: Seq<char>| #[trigger]
            is_id(whole) && code.is_prefix_of(whole),
        is_code(code, len) ==> code.len() == if len < 32 {
            len
        } else {
            32
        },
        is_id(id) && len <= 32 ==> is_code(id.take(len as int), len),
{
    if is_id(id) {
        let reading = choose|reading: Option<(u64, u32)>|
            is_reading(reading) && id == #[trigger] id_of(reading);
        match reading {
            Some((secs, nanos)) => {
                assert(id == id_of(Some((secs, nanos))));
            },
            None => {
                assert(id == id_of(Some((0u64, 0u32))));
            },
        }
        law_id_shape(id);
        if len <= 32 {
            assert(id.take(32) =~= id);
            assert(id.take(len as int) == shortened(id, len));
        }
    }
    if exists|secs: u64, nanos: u32|
        nanos < 1_000_000_000 && id == #[trigger] id_of(Some((secs, nanos))) {
        let (secs, nanos) = choose|secs: u64, nanos: u32|
            nanos < 1_000_000_000 && id == #[trigger] id_of(Some((secs, nanos)));
        assert(is_reading(Some((secs, nanos))) && id == id_of(Some((secs, nanos))));
    }
    if is_code(code, len) {
        law_code_shape(code, len);
        let whole = choose|whole: Seq<char>|
            is_id(whole) && code == #[trigger] shortened(whole, len);
        law_id_shape(whole);
        assert(whole.take(code.len() as int) =~= code);
        assert(is_id(whole) && code.is_prefix_of(whole));
    }
}

/// The start of an identifier is as long as was asked for, or the whole of it.
pub proof fn law_shortened(id: Seq<char>, len: nat)
    ensures
        shortened(id, len).is_prefix_of(id),
        shortened(id, len).len() == if len < id.len() {
            len
        } else {
            id.len()
        },
{
    assert(id.take(id.len() as int) =~= id);
    assert(len < id.len() ==> id.take(len as int).take(len as int) =~= id.take(len as int));
}

} // verus!
