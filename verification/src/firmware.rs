//! Which firmware a device is offered.

use crate::text::begins;
use crate::text::chars_of;
use crate::text::find_from;
use crate::text::law_number_by_digit;
use crate::text::law_pieces;
use crate::text::number;
use crate::text::parse_number;
use crate::text::pieces;
use crate::text::pieces_from;
use crate::text::same;
use vstd::prelude::*;

verus! {

/// A firmware version, and where to get it; no place where there is nothing to get.
pub struct FirmwareResult {
    pub version: String,
    pub url: String,
}

/// What an offer of firmware holds.
pub struct FirmwareView {
    pub version: Seq<char>,
    pub url: Seq<char>,
}

impl View for FirmwareResult {
    type V = FirmwareView;

    open spec fn view(&self) -> FirmwareView {
        FirmwareView { version: self.version@, url: self.url@ }
    }
}

// ---------------------------------------------------------------------------
// Versions
// ---------------------------------------------------------------------------

/// The number that a part of a version stands for; 0 where it is not a number.
pub open spec fn part_number(part: Seq<char>) -> nat {
    match number(part, u32::MAX as nat) {
        Some(n) => n,
        None => 0,
    }
}

/// The numbers of a version, between the points.
pub open spec fn version_numbers(version: Seq<char>) -> Seq<nat> {
    pieces(version, '.').map_values(|part: Seq<char>| part_number(part))
}

/// `a` and `b` are the same before place `i`, and `a` is the smaller or the shorter one there.
pub open spec fn less_at(a: Seq<nat>, b: Seq<nat>, i: int) -> bool {
    &&& 0 <= i <= a.len()
    &&& i < b.len()
    &&& forall|j: int| 0 <= j < i ==> a[j] == b[j]
    &&& i < a.len() ==> a[i] < b[i]
}

/// `a` comes before `b`, number by number; a version comes before its extensions.
pub open spec fn earlier(a: Seq<nat>, b: Seq<nat>) -> bool {
    exists|i: int| less_at(a, b, i)
}

fn numbers_of(version: &str) -> (r: Vec<u32>)
    ensures
        r@.map_values(|n: u32| n as nat) == version_numbers(version@),
{
    let chars = chars_of(version);
    let len: usize = chars.len();
    let point: Vec<char> = vec!['.'];
    assert(point@ =~= seq!['.']);
    let mut numbers: Vec<u32> = Vec::new();
    let mut from: usize = 0;
    let ghost value = |part: Seq<char>| part_number(part);
    let ghost nat_of = |n: u32| n as nat;
    assert(numbers@.map_values(nat_of) + pieces_from(chars@, '.', 0).map_values(value)
        =~= version_numbers(version@));
    loop
        invariant
            from <= len,
            len == chars@.len(),
            chars@ == version@,
            point@ == seq!['.'],
            value == (|part: Seq<char>| part_number(part)),
            nat_of == (|n: u32| n as nat),
            numbers@.map_values(nat_of) + pieces_from(chars@, '.', from as int).map_values(value)
                == version_numbers(version@),
        decreases len - from,
    {
        let found = find_from(&chars, &point, from);
        let to: usize = match found {
            Some(at) => at,
            None => len,
        };
        let n: u32 = match parse_number(&chars, from, to, u32::MAX as u64) {
            Some(n) => n as u32,
            None => 0,
        };
        let ghost before = numbers@;
        numbers.push(n);
        let ghost part = chars@.subrange(from as int, to as int);
        assert(n as nat == part_number(part));
        assert(numbers@.map_values(nat_of) =~= before.map_values(nat_of).push(n as nat));
        if found.is_none() {
            assert(seq![part].map_values(value) =~= seq![n as nat]);
            assert(numbers@.map_values(nat_of) =~= before.map_values(nat_of) + pieces_from(
                chars@,
                '.',
                from as int,
            ).map_values(value));
            return numbers;
        }
        proof {
            let rest = pieces_from(chars@, '.', to + 1);
            assert((seq![part] + rest).map_values(value) =~= seq![n as nat] + rest.map_values(
                value,
            ));
            assert(numbers@.map_values(nat_of) + rest.map_values(value) =~= before.map_values(
                nat_of,
            ) + (seq![part] + rest).map_values(value));
        }
        from = to + 1;
    }
}

/// Tells whether a version comes before another.
pub fn version_lt(current: &str, latest: &str) -> (r: bool)
    ensures
        r == earlier(version_numbers(current@), version_numbers(latest@)),
{
    let a = numbers_of(current);
    let b = numbers_of(latest);
    let ghost x = version_numbers(current@);
    let ghost y = version_numbers(latest@);
    assert(x.len() == a@.len() && y.len() == b@.len());
    assert forall|k: int| 0 <= k < a@.len() implies x[k] == a@[k] as nat by {
        assert(a@.map_values(|n: u32| n as nat)[k] == a@[k] as nat);
    }
    assert forall|k: int| 0 <= k < b@.len() implies y[k] == b@[k] as nat by {
        assert(b@.map_values(|n: u32| n as nat)[k] == b@[k] as nat);
    }
    let mut i: usize = 0;
    while i < a.len() && i < b.len()
        invariant
            i <= a@.len(),
            i <= b@.len(),
            x.len() == a@.len(),
            y.len() == b@.len(),
            forall|k: int| 0 <= k < a@.len() ==> x[k] == a@[k] as nat,
            forall|k: int| 0 <= k < b@.len() ==> y[k] == b@[k] as nat,
            forall|k: int| 0 <= k < i ==> x[k] == y[k],
            x == version_numbers(current@),
            y == version_numbers(latest@),
        decreases a@.len() - i,
    {
        if a[i] < b[i] {
            assert(less_at(x, y, i as int));
            return true;
        }
        if a[i] > b[i] {
            assert forall|k: int| !less_at(x, y, k) by {
                if less_at(x, y, k) {
                    if k > i {
                        assert(x[i as int] == y[i as int]);
                    } else if k < i {
                        assert(x[k] == y[k]);
                    }
                }
            }
            return false;
        }
        i = i + 1;
    }
    if i < b.len() {
        assert(less_at(x, y, i as int));
        true
    } else {
        assert forall|k: int| !less_at(x, y, k) by {
            if less_at(x, y, k) {
                assert(x[k] == y[k]);
            }
        }
        false
    }
}

// ---------------------------------------------------------------------------
// The offer
// ---------------------------------------------------------------------------

/// The newest version.
pub open spec fn latest_version() -> Seq<char> {
    "1.0.2"@
}

/// The device is to be updated: it runs an earlier version, or the version of its board that is
/// always replaced.
pub open spec fn needs_update(board: Seq<char>, current: Seq<char>) -> bool {
    ||| "bread-"@.is_prefix_of(board) && current == "0.9.8"@
    ||| earlier(version_numbers(current), version_numbers(latest_version()))
}

/// The newest version for a device that is to be updated, else the version that it runs.
pub open spec fn offer(board: Seq<char>, current: Seq<char>) -> FirmwareView {
    if needs_update(board, current) {
        FirmwareView {
            version: latest_version(),
            url: "https://example.com/firmware/1.0.2.bin"@,
        }
    } else {
        FirmwareView { version: current, url: Seq::empty() }
    }
}

/// The firmware for a board that runs the given version.
pub fn select_firmware(board_name: &str, current_version: &str) -> (r: FirmwareResult)
    ensures
        r@ == offer(board_name@, current_version@),
{
    let latest = "1.0.2";
    if (begins(board_name, "bread-") && same(current_version, "0.9.8")) || version_lt(
        current_version,
        latest,
    ) {
        FirmwareResult {
            version: latest.to_owned(),
            url: "https://example.com/firmware/1.0.2.bin".to_owned(),
        }
    } else {
        FirmwareResult { version: current_version.to_owned(), url: String::new() }
    }
}

// ---------------------------------------------------------------------------
// Laws
// ---------------------------------------------------------------------------

/// No version comes before itself.
pub proof fn law_earlier_irreflexive(a: Seq<nat>)
    ensures
        !earlier(a, a),
{
    if earlier(a, a) {
        let i = choose|i: int| less_at(a, a, i);
        assert(i < a.len());
    }
}

/// The order of versions is transitive.
pub proof fn law_earlier_transitive(a: Seq<nat>, b: Seq<nat>, c: Seq<nat>)
    requires
        earlier(a, b),
        earlier(b, c),
    ensures
        earlier(a, c),
{
    let i = choose|i: int| less_at(a, b, i);
    let j = choose|j: int| less_at(b, c, j);
    let k = if i <= j {
        i
    } else {
        j
    };
    assert(less_at(a, c, k));
}

/// Of two versions with different numbers one comes before the other.
pub proof fn law_earlier_total(a: Seq<nat>, b: Seq<nat>)
    requires
        a != b,
    ensures
        earlier(a, b) || earlier(b, a),
{
    lemma_earlier_total_from(a, b, 0);
}

proof fn lemma_earlier_total_from(a: Seq<nat>, b: Seq<nat>, i: int)
    requires
        a != b,
        0 <= i <= a.len(),
        i <= b.len(),
        forall|j: int| 0 <= j < i ==> a[j] == b[j],
    ensures
        earlier(a, b) || earlier(b, a),
    decreases a.len() - i,
{
    if i == a.len() || i == b.len() {
        if a.len() == b.len() {
            assert(a =~= b);
        } else if i == a.len() {
            assert(less_at(a, b, i));
        } else {
            assert(less_at(b, a, i));
        }
    } else if a[i] < b[i] {
        assert(less_at(a, b, i));
    } else if b[i] < a[i] {
        assert(less_at(b, a, i));
    } else {
        lemma_earlier_total_from(a, b, i + 1);
    }
}

/// A board of the family that is always replaced is given the newest version and a place to get
/// it.
pub proof fn law_bread_board_is_updated(board: Seq<char>)
    requires
        "bread-"@.is_prefix_of(board),
    ensures
        offer(board, "0.9.8"@).version == latest_version(),
        offer(board, "0.9.8"@).url.len() > 0,
{
    law_url_iff_update(board, "0.9.8"@);
}

/// A device that runs the offered version is not updated again.
pub proof fn law_update_settles(board: Seq<char>, current: Seq<char>)
    ensures
        !needs_update(board, offer(board, current).version),
{
    law_earlier_irreflexive(version_numbers(latest_version()));
    reveal_strlit("1.0.2");
    reveal_strlit("0.9.8");
    assert("1.0.2"@[0] != "0.9.8"@[0]);
}

/// A place to get firmware is given just where the device is to be updated.
pub proof fn law_url_iff_update(board: Seq<char>, current: Seq<char>)
    ensures
        offer(board, current).url.len() > 0 <==> needs_update(board, current),
{
    reveal_strlit("https://example.com/firmware/1.0.2.bin");
}

/// The numbers of a version are those of its parts, one after the other: a part that is not a
/// number counts as 0.
pub proof fn law_version_numbers(part: Seq<char>, rest: Seq<char>)
    requires
        !part.contains('.'),
    ensures
        ({
            let n = match number(part, 0xffff_ffff) {
                Some(n) => n,
                None => 0,
            };
            &&& version_numbers(part) == seq![n]
            &&& version_numbers(part + seq!['.'] + rest) == seq![n] + version_numbers(rest)
        }),
{
    law_pieces(part, '.', rest);
    let value = |part: Seq<char>| part_number(part);
    assert(seq![part].map_values(value) =~= seq![part_number(part)]);
    assert((seq![part] + pieces(rest, '.')).map_values(value) =~= seq![part_number(part)] + pieces(
        rest,
        '.',
    ).map_values(value));
}

/// The first number in which two versions differ decides; where one is a start of the other, the
/// shorter one comes first.
pub proof fn law_earlier_by_number(p: Seq<nat>, x: nat, y: nat, s: Seq<nat>, t: Seq<nat>)
    ensures
        x < y ==> earlier(p + seq![x] + s, p + seq![y] + t) && !earlier(
            p + seq![y] + t,
            p + seq![x] + s,
        ),
        earlier(p, p + seq![y] + t),
        !earlier(p + seq![y] + t, p),
        !earlier(p, p),
{
    let n = p.len() as int;
    let a = p + seq![x] + s;
    let b = p + seq![y] + t;
    if x < y {
        assert(a[n] == x && b[n] == y);
        assert(less_at(a, b, n));
        assert forall|i: int| !less_at(b, a, i) by {
            if less_at(b, a, i) {
                if i < n {
                    assert(a[i] == b[i]);
                } else if i > n {
                    assert(b[n] == a[n]);
                }
            }
        }
    }
    assert(less_at(p, b, n));
    assert forall|i: int| !less_at(b, p, i) by {
        if less_at(b, p, i) {
            assert(b[i] == p[i]);
        }
    }
    law_earlier_irreflexive(p);
}

/// The newest version is 1.0.2.
proof fn lemma_latest_numbers()
    ensures
        version_numbers("1.0.2"@) == seq![1nat, 0, 2],
{
    reveal_strlit("1.0.2");
    law_version_numbers(seq!['1'], seq!['0', '.', '2']);
    law_version_numbers(seq!['0'], seq!['2']);
    law_version_numbers(seq!['2'], Seq::<char>::empty());
    law_number_by_digit(Seq::<char>::empty(), '1', 0xffff_ffff);
    law_number_by_digit(Seq::<char>::empty(), '0', 0xffff_ffff);
    law_number_by_digit(Seq::<char>::empty(), '2', 0xffff_ffff);
    assert("1.0.2"@ =~= seq!['1'] + seq!['.'] + seq!['0', '.', '2']);
    assert(seq!['0', '.', '2'] =~= seq!['0'] + seq!['.'] + seq!['2']);
    assert(version_numbers("1.0.2"@) =~= seq![1nat, 0, 2]);
}

/// Whatever the board, a device whose version comes before 1.0.2 is offered 1.0.2 and the place to
/// get it; so is a bread board on 0.9.8. Every other device is offered the version that it runs,
/// and no place.
pub proof fn law_offer(board: Seq<char>, current: Seq<char>)
    ensures
        version_numbers("1.0.2"@) == seq![1nat, 0, 2],
        earlier(version_numbers(current), seq![1nat, 0, 2]) ==> offer(board, current).version
            == "1.0.2"@ && offer(board, current).url == "https://example.com/firmware/1.0.2.bin"@,
        "bread-"@.is_prefix_of(board) && current == "0.9.8"@ ==> offer(board, current).version
            == "1.0.2"@ && offer(board, current).url == "https://example.com/firmware/1.0.2.bin"@,
        !earlier(version_numbers(current), seq![1nat, 0, 2]) && !("bread-"@.is_prefix_of(board)
            && current == "0.9.8"@) ==> offer(board, current).version == current && offer(
            board,
            current,
        ).url.len() == 0,
{
    lemma_latest_numbers();
}

/// What is offered is what the fields hold.
pub proof fn law_firmware_view(firmware: FirmwareResult)
    ensures
        firmware@.version == firmware.version@,
        firmware@.url == firmware.url@,
{
}

} // verus!
