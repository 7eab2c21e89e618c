//! The ROM search: the binary-tree walk that finds the 8-byte code of every
//! device on the bus, one device per round.

use vstd::prelude::*;
use crate::bits::byte_bit;
use crate::crc::{calculate_crc8, crc8};

verus! {

/// Number of bits in a ROM code.
pub const ROM_BITS: u8 = 64;

/// Bit `index` of a ROM code, counted from the least-significant bit of byte 0.
pub open spec fn rom_bit(rom: Seq<u8>, index: int) -> bool {
    byte_bit(rom[index / 8], (index % 8) as usize) == 1
}

/// `rom` with bit `index` set.
pub open spec fn with_rom_bit(rom: Seq<u8>, index: int) -> Seq<u8> {
    rom.update(index / 8, rom[index / 8] | (1u8 << ((index % 8) as usize)))
}

/// What one search round has settled so far.
#[derive(Clone, Copy, Debug, PartialEq, Eq)]
pub struct SearchRound {
    /// How many bits of the code are decided: the next one has this index.
    pub decided: u8,
    /// The code as far as decided; undecided bits are zero.
    pub rom: [u8; 8],
    /// The last place (index plus one) where this round opened a new branch
    /// by taking "0" while some device answered "1"; 0 where it opened none.
    pub marker: u8,
}

/// A `SearchRound` with its code as a mathematical sequence.
pub struct RoundView {
    pub decided: u8,
    pub rom: Seq<u8>,
    pub marker: u8,
}

impl View for SearchRound {
    type V = RoundView;

    open spec fn view(&self) -> RoundView {
        RoundView { decided: self.decided, rom: self.rom@, marker: self.marker }
    }
}

/// What the search carries from one round to the next.
#[derive(Debug, PartialEq, Eq)]
pub struct DiscoveryState {
    /// The place (index plus one) of the branch that the next round turns at;
    /// 0 where no branch is left open.
    pub last_discrepancy: u8,
    /// The code found by the last round whose code checked: the path replayed
    /// up to that branch.
    pub last_rom: [u8; 8],
    /// The codes found so far, in the order found.
    pub sensors: Vec<[u8; 8]>,
}

/// A `DiscoveryState` with its sequences as mathematical values.
pub struct DiscoveryView {
    pub last_discrepancy: u8,
    pub last_rom: Seq<u8>,
    pub sensors: Seq<Seq<u8>>,
}

/// A list of ROM codes as a sequence of byte sequences.
pub open spec fn rom_list(codes: Seq<[u8; 8]>) -> Seq<Seq<u8>> {
    Seq::new(codes.len(), |i: int| codes[i]@)
}

impl View for DiscoveryState {
    type V = DiscoveryView;

    open spec fn view(&self) -> DiscoveryView {
        DiscoveryView {
            last_discrepancy: self.last_discrepancy,
            last_rom: self.last_rom@,
            sensors: rom_list(self.sensors@),
        }
    }
}

/// The bit to take at `place` (index plus one), given the bit and the
/// complement that the bus answered, or `None` where no device answered.
/// Where devices disagree, the path of the round before is replayed below
/// the branch it left open, that branch is turned to "1", and beyond it "0"
/// is taken.
pub open spec fn search_direction(
    id: bool,
    complement: bool,
    place: int,
    last_discrepancy: int,
    last_bit: bool,
) -> Option<bool> {
    if id && complement {
        None
    } else if id != complement {
        Some(id)
    } else if place < last_discrepancy {
        Some(last_bit)
    } else {
        Some(place == last_discrepancy)
    }
}

/// Taking the bit at `place` opens a branch that a later round must turn at.
pub open spec fn opens_branch(id: bool, complement: bool, place: int, last_discrepancy: int) -> bool {
    !id && !complement && place > last_discrepancy
}

impl RoundView {
    /// A round before its first bit.
    pub open spec fn fresh() -> RoundView {
        RoundView { decided: 0, rom: Seq::new(8, |i: int| 0u8), marker: 0 }
    }

    /// The code has eight bytes, no more bits are decided than it holds, and
    /// the marker lies among the decided places.
    pub open spec fn wf(self) -> bool {
        &&& self.rom.len() == 8
        &&& self.decided <= ROM_BITS
        &&& self.marker <= self.decided
    }

    /// The bit that the round takes next when the bus answers `id` and
    /// `complement`, or `None` where no device answered.
    pub open spec fn direction(
        self,
        id: bool,
        complement: bool,
        last_discrepancy: u8,
        last_rom: Seq<u8>,
    ) -> Option<bool> {
        search_direction(
            id,
            complement,
            self.decided + 1,
            last_discrepancy as int,
            rom_bit(last_rom, self.decided as int),
        )
    }

    /// The round after the bus answered `id` and `complement` for the next
    /// bit, or `None` where no device answered and the round is abandoned.
    pub open spec fn decide(
        self,
        id: bool,
        complement: bool,
        last_discrepancy: u8,
        last_rom: Seq<u8>,
    ) -> Option<RoundView> {
        let place = self.decided + 1;
        match self.direction(id, complement, last_discrepancy, last_rom) {
            None => None,
            Some(direction) => Some(
                RoundView {
                    decided: place as u8,
                    rom: if direction {
                        with_rom_bit(self.rom, self.decided as int)
                    } else {
                        self.rom
                    },
                    marker: if opens_branch(id, complement, place, last_discrepancy as int) {
                        place as u8
                    } else {
                        self.marker
                    },
                },
            ),
        }
    }
}

impl DiscoveryView {
    /// The search before its first round.
    pub open spec fn fresh() -> DiscoveryView {
        DiscoveryView {
            last_discrepancy: 0,
            last_rom: Seq::new(8, |i: int| 0u8),
            sensors: Seq::empty(),
        }
    }

    /// A complete code whose CRC-8 checks was found by `round`.
    pub open spec fn accepts(round: RoundView) -> bool {
        round.decided == ROM_BITS && crc8(round.rom) == 0
    }

    /// The search after `round` has ended.
    pub open spec fn after_round(self, round: RoundView) -> DiscoveryView {
        if Self::accepts(round) {
            DiscoveryView {
                last_discrepancy: round.marker,
                last_rom: round.rom,
                sensors: self.sensors.push(round.rom),
            }
        } else {
            DiscoveryView { last_discrepancy: round.marker, ..self }
        }
    }

    /// Another round is due: the last one left a branch open.
    pub open spec fn unfinished(self) -> bool {
        self.last_discrepancy != 0
    }
}

proof fn lemma_mask_test(byte: u8, k: usize)
    by (bit_vector)
    requires
        k < 8,
    ensures
        (byte & (1u8 << k) != 0) == ((byte >> k) & 1 == 1),
{
}

impl SearchRound {
    /// Starts a round: nothing decided, no branch opened.
    pub fn new() -> (round: SearchRound)
        ensures
            round@ == RoundView::fresh(),
            round@.wf(),
    {
        let round = SearchRound { decided: 0, rom: [0u8, 0, 0, 0, 0, 0, 0, 0], marker: 0 };
        assert(round.rom@ =~= Seq::new(8, |i: int| 0u8));
        round
    }

    /// Decides the next bit from the bus's answer. `id_bit` is the level
    /// sampled while the devices sent the bit, `complement_bit` while they
    /// sent its complement. Returns the bit to drive back, or `None` where
    /// no device answered: the round is then abandoned and left unchanged.
    pub fn decide(
        &mut self,
        id_bit: u8,
        complement_bit: u8,
        last_discrepancy: u8,
        last_rom: &[u8; 8],
    ) -> (direction: Option<u8>)
        requires
            old(self)@.wf(),
            old(self).decided < ROM_BITS,
        ensures
            match old(self)@.decide(id_bit != 0, complement_bit != 0, last_discrepancy, last_rom@) {
                None => direction is None && *final(self) == *old(self),
                Some(next) => final(self)@ == next && next.wf() && direction == Some(
                    if old(self)@.direction(
                        id_bit != 0,
                        complement_bit != 0,
                        last_discrepancy,
                        last_rom@,
                    ) == Some(true) {
                        1u8
                    } else {
                        0u8
                    },
                ),
            },
    {
        let id = id_bit != 0;
        let complement = complement_bit != 0;
        let index = self.decided as usize;
        let place = self.decided + 1;
        let mask: u8 = 1u8 << (index % 8);
        proof {
            lemma_mask_test(last_rom[(index / 8) as int], (index % 8) as usize);
        }
        let direction = if id && complement {
            return None;
        } else if id != complement {
            id
        } else if place < last_discrepancy {
            last_rom[index / 8] & mask != 0
        } else if place == last_discrepancy {
            true
        } else {
            self.marker = place;
            false
        };
        if direction {
            let byte = self.rom[index / 8];
            self.rom[index / 8] = byte | mask;
        }
        self.decided = place;
        Some(if direction { 1 } else { 0 })
    }
}

/// Bit `k` of a byte after bit `j` was set.
proof fn lemma_set_bit(byte: u8, j: usize, k: usize)
    by (bit_vector)
    requires
        j < 8,
        k < 8,
    ensures
        (((byte | (1u8 << j)) >> k) & 1 == 1) == (j == k || (byte >> k) & 1 == 1),
{
}

/// Setting a bit of a code sets that bit and no other.
pub proof fn lemma_with_rom_bit(rom: Seq<u8>, index: int, other: int)
    requires
        rom.len() == 8,
        0 <= index < 64,
        0 <= other < 64,
    ensures
        rom_bit(with_rom_bit(rom, index), other) == (other == index || rom_bit(rom, other)),
        with_rom_bit(rom, index).len() == 8,
{
    if other / 8 == index / 8 {
        lemma_set_bit(rom[index / 8], (index % 8) as usize, (other % 8) as usize);
    }
}

impl DiscoveryState {
    /// Starts a search: no branch open, nothing found.
    pub fn new() -> (state: DiscoveryState)
        ensures
            state@ == DiscoveryView::fresh(),
    {
        let state = DiscoveryState {
            last_discrepancy: 0,
            last_rom: [0u8, 0, 0, 0, 0, 0, 0, 0],
            sensors: Vec::new(),
        };
        assert(state.last_rom@ =~= Seq::new(8, |i: int| 0u8));
        assert(rom_list(state.sensors@) =~= Seq::<Seq<u8>>::empty());
        state
    }

    /// Closes a round. A complete code whose CRC-8 checks joins the codes
    /// found and becomes the path to replay; any other is dropped. The branch
    /// that the round opened last is the one the next round turns at.
    /// Returns whether another round is due.
    pub fn finish_round(&mut self, round: SearchRound) -> (more: bool)
        requires
            round@.wf(),
        ensures
            final(self)@ == old(self)@.after_round(round@),
            more == final(self)@.unfinished(),
    {
        if round.decided == ROM_BITS && calculate_crc8(round.rom.as_slice()) == 0 {
            self.sensors.push(round.rom);
            self.last_rom = round.rom;
            assert(rom_list(self.sensors@) =~= rom_list(old(self).sensors@).push(round.rom@));
        }
        self.last_discrepancy = round.marker;
        self.last_discrepancy != 0
    }
}

} // verus!
