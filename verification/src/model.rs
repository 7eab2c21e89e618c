//! A bus of devices as the ROM search sees it, and what the search finds on
//! such a bus.

use vstd::prelude::*;
use crate::bits::byte_bits;
use crate::crc::crc8;
use crate::protocol::{JobView, ResponseView, SearchPhase, SEARCH_ROM};
use crate::search::{lemma_with_rom_bit, rom_bit, DiscoveryView, RoundView, ROM_BITS};

verus! {

/// Two codes have the same bits below `index`.
pub open spec fn same_below(a: Seq<u8>, b: Seq<u8>, index: int) -> bool {
    forall|j: int| 0 <= j < index ==> rom_bit(a, j) == rom_bit(b, j)
}

/// The device is still taking part in a round that has decided the bits of
/// `rom` below `decided`: it was not put off by any bit driven back.
pub open spec fn taking_part(device: Seq<u8>, rom: Seq<u8>, decided: int) -> bool {
    same_below(device, rom, decided)
}

/// The level of the line while the devices send bit `decided`: high unless
/// a device that takes part sends a "0".
pub open spec fn bus_id(devices: Set<Seq<u8>>, rom: Seq<u8>, decided: int) -> bool {
    forall|d: Seq<u8>| #[trigger]
        devices.contains(d) && taking_part(d, rom, decided) ==> rom_bit(d, decided)
}

/// The level of the line while the devices send the complement of bit
/// `decided`: high unless a device that takes part has a "1" there.
pub open spec fn bus_complement(devices: Set<Seq<u8>>, rom: Seq<u8>, decided: int) -> bool {
    forall|d: Seq<u8>| #[trigger]
        devices.contains(d) && taking_part(d, rom, decided) ==> !rom_bit(d, decided)
}

/// The round as it ends on a bus of `devices`: all 64 bits decided, or
/// abandoned where the line stayed high for a bit and its complement.
pub open spec fn run_round(devices: Set<Seq<u8>>, state: DiscoveryView, round: RoundView) -> RoundView
    decreases ROM_BITS - round.decided,
{
    if round.decided >= ROM_BITS {
        round
    } else {
        match round.decide(
            bus_id(devices, round.rom, round.decided as int),
            bus_complement(devices, round.rom, round.decided as int),
            state.last_discrepancy,
            state.last_rom,
        ) {
            None => round,
            Some(next) => run_round(devices, state, next),
        }
    }
}

/// The codes that a search reports on a bus of `devices`, continued from
/// `state`: a reset that no device answers ends it, and so does a round that
/// leaves no branch open.
pub open spec fn run_search(devices: Set<Seq<u8>>, state: DiscoveryView) -> Seq<Seq<u8>>
    decreases 256 - state.last_discrepancy,
{
    if devices =~= Set::empty() {
        state.sensors
    } else {
        let next = state.after_round(run_round(devices, state, RoundView::fresh()));
        if next.unfinished() && next.last_discrepancy > state.last_discrepancy {
            run_search(devices, next)
        } else {
            next.sensors
        }
    }
}

/// The number of resets that the search makes on a bus of `devices`,
/// continued from `state`: one for each round, the first included even
/// where no device answers it.
pub open spec fn count_resets(devices: Set<Seq<u8>>, state: DiscoveryView) -> nat
    decreases 256 - state.last_discrepancy,
{
    if devices =~= Set::empty() {
        1
    } else {
        let next = state.after_round(run_round(devices, state, RoundView::fresh()));
        if next.unfinished() && next.last_discrepancy > state.last_discrepancy {
            1 + count_resets(devices, next)
        } else {
            1
        }
    }
}

/// Every code is eight bytes long and carries its own CRC-8.
pub open spec fn valid_codes(order: Seq<Seq<u8>>) -> bool {
    forall|i: int| 0 <= i < order.len() ==> (#[trigger] order[i]).len() == 8 && crc8(order[i]) == 0
}

/// The codes form a single line of branches: each code parts from all
/// later ones at one bit, `parting[i]`, where it has "0" and they have "1",
/// and these bits climb from code to code.
pub open spec fn single_line(order: Seq<Seq<u8>>, parting: Seq<int>) -> bool {
    &&& parting.len() + 1 == order.len() || (parting.len() == 0 && order.len() == 0)
    &&& forall|i: int| 0 <= i < parting.len() ==> 0 <= #[trigger] parting[i] < ROM_BITS
    &&& forall|i: int, j: int| 0 <= i < j < parting.len() ==> parting[i] < parting[j]
    &&& forall|i: int, j: int|
        0 <= i < j < order.len() ==> same_below(#[trigger] order[i], #[trigger] order[j], parting[i])
            && !rom_bit(order[i], parting[i]) && rom_bit(order[j], parting[i])
}

/// The branch that round `j` turns at: the parting bit of the code before.
pub open spec fn turning_place(parting: Seq<int>, j: int) -> int {
    if j == 0 {
        0
    } else {
        parting[j - 1] + 1
    }
}

/// The branch that round `j` opens: its own parting bit, if it has one.
pub open spec fn opened_place(parting: Seq<int>, j: int) -> int {
    if j < parting.len() {
        parting[j] + 1
    } else {
        0
    }
}

/// The search as it stands before round `j`.
pub open spec fn before_round(order: Seq<Seq<u8>>, parting: Seq<int>, j: int) -> DiscoveryView {
    DiscoveryView {
        last_discrepancy: turning_place(parting, j) as u8,
        last_rom: if j == 0 {
            Seq::new(8, |i: int| 0u8)
        } else {
            order[j - 1]
        },
        sensors: order.take(j),
    }
}

/// Round `j` as it stands with `decided` bits decided.
pub open spec fn round_on_course(
    order: Seq<Seq<u8>>,
    parting: Seq<int>,
    j: int,
    round: RoundView,
) -> bool {
    &&& round.rom.len() == 8
    &&& round.decided <= ROM_BITS
    &&& forall|q: int|
        0 <= q < ROM_BITS ==> #[trigger] rom_bit(round.rom, q) == (q < round.decided && rom_bit(
            order[j],
            q,
        ))
    &&& round.marker == (if j < parting.len() && round.decided > parting[j] {
        parting[j] + 1
    } else {
        0
    })
}

proof fn lemma_equal_bits_equal_byte(a: u8, b: u8)
    by (bit_vector)
    requires
        (a >> 0usize) & 1 == (b >> 0usize) & 1,
        (a >> 1usize) & 1 == (b >> 1usize) & 1,
        (a >> 2usize) & 1 == (b >> 2usize) & 1,
        (a >> 3usize) & 1 == (b >> 3usize) & 1,
        (a >> 4usize) & 1 == (b >> 4usize) & 1,
        (a >> 5usize) & 1 == (b >> 5usize) & 1,
        (a >> 6usize) & 1 == (b >> 6usize) & 1,
        (a >> 7usize) & 1 == (b >> 7usize) & 1,
    ensures
        a == b,
{
}

proof fn lemma_bit_is_binary(a: u8, k: usize)
    by (bit_vector)
    requires
        k < 8,
    ensures
        (a >> k) & 1 == 0 || (a >> k) & 1 == 1,
{
}

proof fn lemma_bit_agrees(a: Seq<u8>, b: Seq<u8>, i: int, k: usize)
    requires
        same_below(a, b, 64),
        0 <= i < 8,
        k < 8,
    ensures
        (a[i] >> k) & 1 == (b[i] >> k) & 1,
{
    let q = 8 * i + k;
    assert(q / 8 == i && q % 8 == k);
    assert(rom_bit(a, q) == rom_bit(b, q));
    lemma_bit_is_binary(a[i], k);
    lemma_bit_is_binary(b[i], k);
}

/// Two codes with the same 64 bits are the same code.
pub proof fn lemma_same_bits_same_code(a: Seq<u8>, b: Seq<u8>)
    requires
        a.len() == 8,
        b.len() == 8,
        same_below(a, b, 64),
    ensures
        a == b,
{
    assert forall|i: int| 0 <= i < 8 implies a[i] == b[i] by {
        lemma_bit_agrees(a, b, i, 0);
        lemma_bit_agrees(a, b, i, 1);
        lemma_bit_agrees(a, b, i, 2);
        lemma_bit_agrees(a, b, i, 3);
        lemma_bit_agrees(a, b, i, 4);
        lemma_bit_agrees(a, b, i, 5);
        lemma_bit_agrees(a, b, i, 6);
        lemma_bit_agrees(a, b, i, 7);
        lemma_equal_bits_equal_byte(a[i], b[i]);
    }
    assert(a =~= b);
}

/// A device that takes part in round `j` and differs from the round's own
/// code at the bit being decided is a later code, met at the parting bit.
proof fn lemma_dissenter(
    order: Seq<Seq<u8>>,
    parting: Seq<int>,
    j: int,
    round: RoundView,
    k: int,
)
    requires
        single_line(order, parting),
        0 <= j < order.len(),
        0 <= k < order.len(),
        round_on_course(order, parting, j, round),
        turning_place(parting, j) <= round.decided < ROM_BITS,
        taking_part(order[k], round.rom, round.decided as int),
        rom_bit(order[k], round.decided as int) != rom_bit(order[j], round.decided as int),
    ensures
        j < parting.len(),
        round.decided == parting[j],
        !rom_bit(order[j], round.decided as int),
{
    let p = round.decided as int;
    if k < j {
        assert(parting[k] <= parting[j - 1]);
        assert(rom_bit(order[k], parting[k]) == rom_bit(round.rom, parting[k]));
        assert(rom_bit(round.rom, parting[k]) == rom_bit(order[j], parting[k]));
        assert(false);
    } else if k == j {
        assert(false);
    } else {
        assert(j < parting.len());
        if p > parting[j] {
            assert(rom_bit(order[k], parting[j]) == rom_bit(round.rom, parting[j]));
            assert(rom_bit(round.rom, parting[j]) == rom_bit(order[j], parting[j]));
            assert(false);
        }
        if p < parting[j] {
            assert(rom_bit(order[j], p) == rom_bit(order[k], p));
            assert(false);
        }
    }
}

/// On a single line of branches, round `j` decides each bit as its own
/// code has it, and opens a branch exactly at its parting bit.
pub proof fn lemma_round_step(
    devices: Set<Seq<u8>>,
    order: Seq<Seq<u8>>,
    parting: Seq<int>,
    j: int,
    round: RoundView,
)
    requires
        single_line(order, parting),
        devices == order.to_set(),
        0 <= j < order.len(),
        round_on_course(order, parting, j, round),
        round.decided < ROM_BITS,
    ensures
        ({
            let state = before_round(order, parting, j);
            round.decide(
                bus_id(devices, round.rom, round.decided as int),
                bus_complement(devices, round.rom, round.decided as int),
                state.last_discrepancy,
                state.last_rom,
            ) matches Some(next) && round_on_course(order, parting, j, next) && next.decided
                == round.decided + 1
        }),
{
    let p = round.decided as int;
    let state = before_round(order, parting, j);
    let me = order[j];
    let bit = rom_bit(me, p);
    let id = bus_id(devices, round.rom, p);
    let complement = bus_complement(devices, round.rom, p);
    let turning = turning_place(parting, j);
    assert(0 <= turning <= ROM_BITS);
    assert(state.last_discrepancy == turning);

    assert(order.contains(me));
    assert(devices.contains(me));
    assert(taking_part(me, round.rom, p));
    assert(id ==> bit);
    assert(complement ==> !bit);

    let parts_here = j < parting.len() && p == parting[j];
    if parts_here {
        let after = order[j + 1];
        assert(order.contains(after));
        assert(devices.contains(after));
        assert(taking_part(after, round.rom, p)) by {
            assert forall|q: int| 0 <= q < p implies rom_bit(after, q) == rom_bit(round.rom, q) by {
                assert(rom_bit(me, q) == rom_bit(after, q));
            }
        }
        assert(rom_bit(after, p));
        assert(!bit);
        assert(!id);
        assert(!complement);
        assert(p + 1 > turning);
    }
    if !id && !complement && p + 1 > turning {
        let d = if bit {
            choose|d: Seq<u8>|
                devices.contains(d) && taking_part(d, round.rom, p) && !rom_bit(d, p)
        } else {
            choose|d: Seq<u8>| devices.contains(d) && taking_part(d, round.rom, p) && rom_bit(d, p)
        };
        assert(devices.contains(d) && taking_part(d, round.rom, p) && rom_bit(d, p) != bit);
        assert(order.contains(d));
        let k = choose|k: int| 0 <= k < order.len() && order[k] == d;
        lemma_dissenter(order, parting, j, round, k);
        assert(parts_here);
    }
    if !id && !complement && p + 1 <= turning {
        assert(j >= 1);
        let before = order[j - 1];
        assert(state.last_rom == before);
        if p + 1 < turning {
            assert(rom_bit(before, p) == rom_bit(me, p));
        } else {
            assert(bit);
        }
    }
    let direction = round.direction(id, complement, state.last_discrepancy, state.last_rom);
    assert(direction == Some(bit));
    let next = round.decide(id, complement, state.last_discrepancy, state.last_rom).unwrap();
    assert forall|q: int| 0 <= q < ROM_BITS implies #[trigger] rom_bit(next.rom, q) == (q
        < next.decided && rom_bit(me, q)) by {
        if bit {
            lemma_with_rom_bit(round.rom, p, q);
        }
    }
    if bit {
        lemma_with_rom_bit(round.rom, p, p);
    }
}

/// On a single line of branches, round `j` ends with its own code and with
/// the branch at its parting bit on record.
proof fn lemma_round_runs(
    devices: Set<Seq<u8>>,
    order: Seq<Seq<u8>>,
    parting: Seq<int>,
    j: int,
    round: RoundView,
)
    requires
        valid_codes(order),
        single_line(order, parting),
        devices == order.to_set(),
        0 <= j < order.len(),
        round_on_course(order, parting, j, round),
    ensures
        run_round(devices, before_round(order, parting, j), round) == (RoundView {
            decided: ROM_BITS,
            rom: order[j],
            marker: opened_place(parting, j) as u8,
        }),
    decreases ROM_BITS - round.decided,
{
    let state = before_round(order, parting, j);
    if round.decided >= ROM_BITS {
        assert(same_below(round.rom, order[j], 64));
        lemma_same_bits_same_code(round.rom, order[j]);
    } else {
        lemma_round_step(devices, order, parting, j, round);
        let next = round.decide(
            bus_id(devices, round.rom, round.decided as int),
            bus_complement(devices, round.rom, round.decided as int),
            state.last_discrepancy,
            state.last_rom,
        ).unwrap();
        lemma_round_runs(devices, order, parting, j, next);
    }
}

/// On a single line of branches, the search from round `j` on reports the
/// codes found before and every code from the `j`-th on.
proof fn lemma_search_runs(
    devices: Set<Seq<u8>>,
    order: Seq<Seq<u8>>,
    parting: Seq<int>,
    j: int,
)
    requires
        valid_codes(order),
        single_line(order, parting),
        devices == order.to_set(),
        0 <= j < order.len(),
    ensures
        run_search(devices, before_round(order, parting, j)) == order,
        count_resets(devices, before_round(order, parting, j)) == order.len() - j,
    decreases order.len() - j,
{
    let state = before_round(order, parting, j);
    assert(order.contains(order[j]));
    assert(devices.contains(order[j]));
    assert(!(devices =~= Set::<Seq<u8>>::empty()));
    let fresh = RoundView::fresh();
    assert(round_on_course(order, parting, j, fresh)) by {
        assert forall|q: int| 0 <= q < ROM_BITS implies !#[trigger] rom_bit(fresh.rom, q) by {
            lemma_zero_has_no_bit((q % 8) as usize);
        }
    }
    lemma_round_runs(devices, order, parting, j, fresh);
    let round = run_round(devices, state, fresh);
    let next = state.after_round(round);
    assert(DiscoveryView::accepts(round));
    assert(order.take(j).push(order[j]) =~= order.take(j + 1));
    if j + 1 < order.len() {
        assert(next == before_round(order, parting, j + 1));
        lemma_search_runs(devices, order, parting, j + 1);
    } else {
        assert(order.take(j + 1) =~= order);
    }
}

/// A round never opens a branch at or below the one it turns at.
proof fn lemma_marker_lies_further(devices: Set<Seq<u8>>, state: DiscoveryView, round: RoundView)
    requires
        round.marker == 0 || round.marker > state.last_discrepancy,
    ensures
        run_round(devices, state, round).marker == 0 || run_round(devices, state, round).marker
            > state.last_discrepancy,
    decreases ROM_BITS - round.decided,
{
    if round.decided < ROM_BITS {
        match round.decide(
            bus_id(devices, round.rom, round.decided as int),
            bus_complement(devices, round.rom, round.decided as int),
            state.last_discrepancy,
            state.last_rom,
        ) {
            None => {},
            Some(next) => {
                lemma_marker_lies_further(devices, state, next);
            },
        }
    }
}

/// Between two rounds the branch on record moves up the code or is
/// cleared, so the search cannot go round in circles: whenever a round
/// leaves a branch open, it lies further up than the one before.
pub proof fn lemma_branch_moves_up(devices: Set<Seq<u8>>, state: DiscoveryView)
    ensures
        ({
            let next = state.after_round(run_round(devices, state, RoundView::fresh()));
            next.unfinished() ==> next.last_discrepancy > state.last_discrepancy
        }),
{
    lemma_marker_lies_further(devices, state, RoundView::fresh());
}

/// Any two distinct valid codes form a single line of branches, so a search
/// on a bus of two devices always finds both.
pub proof fn lemma_two_devices_form_a_single_line(a: Seq<u8>, b: Seq<u8>) -> (listing: (
    Seq<Seq<u8>>,
    Seq<int>,
))
    requires
        a.len() == 8,
        b.len() == 8,
        a != b,
    ensures
        single_line(listing.0, listing.1),
        listing.0.to_set() == set![a, b],
        listing.0.len() == 2,
{
    let at = first_difference(a, b, 0);
    lemma_first_difference(a, b, 0);
    let first = if rom_bit(a, at) { b } else { a };
    let second = if rom_bit(a, at) { a } else { b };
    let order = seq![first, second];
    let parting = seq![at];
    assert(order.to_set() =~= set![a, b]) by {
        assert(order[0] == first && order[1] == second);
        assert forall|d: Seq<u8>| set![a, b].contains(d) implies order.to_set().contains(d) by {
            if d == first {
                assert(order[0] == d);
            } else {
                assert(order[1] == d);
            }
            assert(order.contains(d));
        }
    }
    (order, parting)
}

/// The first bit from `from` on at which two distinct codes differ.
pub open spec fn first_difference(a: Seq<u8>, b: Seq<u8>, from: int) -> int
    decreases ROM_BITS - from,
{
    if from >= ROM_BITS || rom_bit(a, from) != rom_bit(b, from) {
        from
    } else {
        first_difference(a, b, from + 1)
    }
}

proof fn lemma_first_difference(a: Seq<u8>, b: Seq<u8>, from: int)
    requires
        a.len() == 8,
        b.len() == 8,
        a != b,
        0 <= from <= ROM_BITS,
        same_below(a, b, from),
    ensures
        from <= first_difference(a, b, from) < ROM_BITS,
        same_below(a, b, first_difference(a, b, from)),
        rom_bit(a, first_difference(a, b, from)) != rom_bit(b, first_difference(a, b, from)),
    decreases ROM_BITS - from,
{
    if from >= ROM_BITS {
        lemma_same_bits_same_code(a, b);
    } else if rom_bit(a, from) == rom_bit(b, from) {
        lemma_first_difference(a, b, from + 1);
    }
}

pub(crate) proof fn lemma_zero_has_no_bit(k: usize)
    by (bit_vector)
    requires
        k < 8,
    ensures
        (0u8 >> k) & 1 == 0,
{
}

/// A search finds every device, each once, in as many rounds as there are
/// devices and whatever the order in which the devices answer, provided
/// their codes form a single line of branches. Where a round passes a
/// branch below the one it opens last, the codes behind the passed branch
/// are not visited again.
pub proof fn lemma_search_finds_every_device(
    devices: Set<Seq<u8>>,
    order: Seq<Seq<u8>>,
    parting: Seq<int>,
)
    requires
        valid_codes(order),
        single_line(order, parting),
        devices == order.to_set(),
    ensures
        run_search(devices, DiscoveryView::fresh()) == order,
        run_search(devices, DiscoveryView::fresh()).to_set() == devices,
        run_search(devices, DiscoveryView::fresh()).no_duplicates(),
        order.len() > 0 ==> count_resets(devices, DiscoveryView::fresh()) == order.len(),
{
    if order.len() == 0 {
        assert(devices =~= Set::<Seq<u8>>::empty());
    } else {
        assert(before_round(order, parting, 0) == DiscoveryView::fresh()) by {
            assert(order.take(0) =~= Seq::<Seq<u8>>::empty());
        }
        lemma_search_runs(devices, order, parting, 0);
    }
    assert forall|i: int, k: int| 0 <= i < k < order.len() implies order[i] != order[k] by {
        assert(rom_bit(order[i], parting[i]) != rom_bit(order[k], parting[i]));
    }
}

/// A line level as the byte that an exchange reports for it.
pub open spec fn level(high: bool) -> u8 {
    if high {
        1
    } else {
        0
    }
}

/// What a bus of `devices` answers to the primitive that a search has out:
/// presence where there is a device; the command as sent; the bit and the
/// complement of the devices taking part; the chosen bit as driven.
pub open spec fn bus_response(devices: Set<Seq<u8>>, round: RoundView, phase: SearchPhase) -> ResponseView {
    match phase {
        SearchPhase::Resetting => ResponseView::Presence(!(devices =~= Set::empty())),
        SearchPhase::Commanding => ResponseView::Bits(byte_bits(SEARCH_ROM)),
        SearchPhase::Reading => ResponseView::Bits(
            seq![
                level(bus_id(devices, round.rom, round.decided as int)),
                level(bus_complement(devices, round.rom, round.decided as int)),
            ],
        ),
        SearchPhase::Steering => ResponseView::Bits(
            seq![level(rom_bit(round.rom, round.decided - 1))],
        ),
    }
}

/// A search operation before its first reset.
pub open spec fn search_job() -> JobView {
    JobView::Search {
        state: DiscoveryView::fresh(),
        round: RoundView::fresh(),
        phase: SearchPhase::Resetting,
    }
}

} // verus!
