//! The whole driver run against a simulated line: the replies that a bus
//! of devices gives to the driver's serial-port actions, and what the
//! operations started on the adapter then end with.

use vstd::prelude::*;
use crate::adapter::{AdapterView, LinkView, StepView};
use crate::bits::{
    byte_bits, lemma_byte_round_trip, lemma_undisturbed_slot, sampled_bits, wire_bytes,
};
use crate::crc::crc8;
use crate::link::{presence_detected, ResetOp, ResetStage, TouchView};
use crate::model::{
    before_round, bus_complement, bus_id, bus_response, lemma_round_step,
    lemma_same_bits_same_code, lemma_zero_has_no_bit, level, opened_place, round_on_course,
    same_below, search_job, single_line, valid_codes,
};
use crate::protocol::{
    job_advance, pair_slots, select_byte, temperature_primitive, JobStepView, JobView,
    OutcomeView, PrimitiveView, ResponseView, SearchPhase, CONVERT_T, LAST_TEMPERATURE_STEP,
    READ_SCRATCHPAD, SEARCH_ROM,
};
use crate::search::{rom_bit, DiscoveryView, RoundView, ROM_BITS};
use crate::temperature::{register_value, Temperature};
use crate::transport::{OneWireError, PresenceCheck, ReplyView, RESET_FRAME};

verus! {

/// The echo of the framing byte when a device answers the reset pulse.
pub const PRESENCE_ECHO: u8 = 0xE0;

/// The levels of the slots that the exchange in progress drives: what the
/// bus answers to the primitive that the search has out.
pub open spec fn slot_levels(devices: Set<Seq<u8>>, job: Option<JobView>) -> Seq<u8> {
    match job {
        Some(JobView::Search { round, phase, .. }) => match bus_response(devices, round, phase) {
            ResponseView::Bits(levels) => levels,
            _ => Seq::empty(),
        },
        _ => Seq::empty(),
    }
}

/// The reply of a port on a bus of `devices` to the action that the
/// adapter has out. Every action succeeds; the echo of a reset pulse tells
/// whether there is a device; the echo of each slot is a whole byte at the
/// level that the devices leave the line at.
pub open spec fn bus_reply(devices: Set<Seq<u8>>, adapter: AdapterView) -> ReplyView {
    match adapter.link {
        LinkView::Reset(op) => if op.stage is Sampling {
            ReplyView::Data(seq![reset_echo(!(devices =~= Set::empty()))])
        } else {
            ReplyView::Done
        },
        LinkView::Touch(op) => if op.reading {
            ReplyView::Data(
                wire_bytes(
                    slot_levels(devices, adapter.job).subrange(
                        op.done as int,
                        op.done + op.burst(),
                    ),
                ),
            )
        } else {
            ReplyView::Done
        },
        _ => ReplyView::Done,
    }
}

/// How the operation in progress ends when the adapter is resumed, up to
/// `limit` times, with the replies of `line`, which tells the reply to the
/// action that an adapter has out; `None` where that is not enough.
pub open spec fn run_adapter(
    line: spec_fn(AdapterView) -> ReplyView,
    adapter: AdapterView,
    limit: nat,
) -> Option<Result<OutcomeView, OneWireError>>
    decreases limit,
{
    if limit == 0 {
        None
    } else {
        match adapter.step(line(adapter)) {
            StepView::Finished(result) => Some(result),
            StepView::Perform(_) => run_adapter(
                line,
                adapter.resumed(line(adapter)),
                (limit - 1) as nat,
            ),
        }
    }
}

/// The line of a bus of `devices` during a search.
pub open spec fn search_line(devices: Set<Seq<u8>>) -> spec_fn(AdapterView) -> ReplyView {
    |adapter: AdapterView| bus_reply(devices, adapter)
}

/// The adapter with another primitive in progress.
pub open spec fn with_link(adapter: AdapterView, link: LinkView) -> AdapterView {
    AdapterView { link, ..adapter }
}

/// While the operation of `adapter` stands, the line echoes each slot of an
/// exchange at the level given for it, and every write succeeds.
pub open spec fn echoes_slots(
    line: spec_fn(AdapterView) -> ReplyView,
    adapter: AdapterView,
    levels: Seq<u8>,
) -> bool {
    forall|op: TouchView| #[trigger]
        line(with_link(adapter, LinkView::Touch(op))) == (if op.reading {
            ReplyView::Data(wire_bytes(levels.subrange(op.done as int, op.done + op.burst())))
        } else {
            ReplyView::Done
        })
}

/// While the operation of `adapter` stands, the line answers a reset pulse
/// with `echo`, and every other action of a reset succeeds.
pub open spec fn echoes_reset(
    line: spec_fn(AdapterView) -> ReplyView,
    adapter: AdapterView,
    echo: u8,
) -> bool {
    forall|op: ResetOp| #[trigger]
        line(with_link(adapter, LinkView::Reset(op))) == (if op.stage is Sampling {
            ReplyView::Data(seq![echo])
        } else {
            ReplyView::Done
        })
}

/// The number of actions that an exchange still takes with `left` slots to
/// go: a write and a read for each burst.
pub open spec fn exchange_actions(left: nat, chunk: usize, reading: bool) -> nat
    decreases left, (if reading { 0int } else { 1int }),
{
    if left == 0 || chunk == 0 {
        0
    } else if !reading {
        1 + exchange_actions(left, chunk, true)
    } else if left <= chunk {
        1
    } else {
        1 + exchange_actions((left - chunk) as nat, chunk, false)
    }
}

/// The number of actions that the last `bits` bits of a round take: for
/// each, an exchange of two slots and one of a single slot.
pub open spec fn walk_actions(bits: nat, chunk: usize) -> nat
    decreases bits,
{
    if bits == 0 {
        0
    } else {
        exchange_actions(2, chunk, false) + exchange_actions(1, chunk, false) + walk_actions(
            (bits - 1) as nat,
            chunk,
        )
    }
}

/// The number of actions that a round takes: the six of the reset, the
/// exchange of the command byte, and the walk over 64 bits.
pub open spec fn round_actions(chunk: usize) -> nat {
    6 + exchange_actions(8, chunk, false) + walk_actions(64, chunk)
}

/// The number of actions that a search takes on a bus of `count` devices:
/// one round for each device, and a lone reset where there is none.
pub open spec fn discovery_actions(count: nat, chunk: usize) -> nat
    decreases count,
{
    if count == 0 {
        6
    } else if count == 1 {
        round_actions(chunk)
    } else {
        round_actions(chunk) + discovery_actions((count - 1) as nat, chunk)
    }
}

/// Every level is 0 or 1.
pub open spec fn binary(levels: Seq<u8>) -> bool {
    forall|i: int| 0 <= i < levels.len() ==> #[trigger] levels[i] == 0 || levels[i] == 1
}

/// How the operation goes on once the primitive in progress has ended
/// with `result`.
pub open spec fn settle(
    line: spec_fn(AdapterView) -> ReplyView,
    adapter: AdapterView,
    result: Result<ResponseView, OneWireError>,
    limit: nat,
) -> Option<Result<OutcomeView, OneWireError>> {
    match job_advance(adapter.job.unwrap(), result) {
        JobStepView::Finish(outcome) => Some(outcome),
        JobStepView::Issue(next, primitive) => run_adapter(
            line,
            adapter.launched(next, primitive),
            limit,
        ),
    }
}

proof fn lemma_binary_levels_echo(levels: Seq<u8>)
    requires
        binary(levels),
    ensures
        sampled_bits(wire_bytes(levels)) == levels,
{
    assert forall|i: int| 0 <= i < levels.len() implies sampled_bits(wire_bytes(levels))[i]
        == levels[i] by {
        lemma_undisturbed_slot(levels[i]);
    }
    assert(sampled_bits(wire_bytes(levels)) =~= levels);
}

/// An exchange on a line that echoes its slots ends, after a write and a
/// read for each burst, with the levels echoed.
proof fn lemma_exchange_runs(
    line: spec_fn(AdapterView) -> ReplyView,
    adapter: AdapterView,
    levels: Seq<u8>,
    limit: nat,
)
    requires
        adapter.wf(),
        adapter.job is Some,
        adapter.link is Touch,
        echoes_slots(line, adapter, levels),
        levels.len() == adapter.link->Touch_0.bits.len(),
        binary(levels),
    ensures
        ({
            let op = adapter.link->Touch_0;
            run_adapter(
                line,
                adapter,
                limit + exchange_actions((op.bits.len() - op.done) as nat, op.chunk, op.reading),
            ) == settle(
                line,
                adapter,
                Ok(ResponseView::Bits(op.echoed + levels.skip(op.done as int))),
                limit,
            )
        }),
    decreases
            adapter.link->Touch_0.bits.len() - adapter.link->Touch_0.done,
            (if adapter.link->Touch_0.reading {
                0int
            } else {
                1int
            }),
{
    let op = adapter.link->Touch_0;
    assert(adapter == with_link(adapter, LinkView::Touch(op)));
    let reply = line(adapter);
    let after = adapter.resumed(reply);
    let ended = Ok::<ResponseView, OneWireError>(
        ResponseView::Bits(op.echoed + levels.skip(op.done as int)),
    );
    if !op.reading {
        let next = TouchView { reading: true, ..op };
        assert(after == with_link(adapter, LinkView::Touch(next)));
        assert(echoes_slots(line, after, levels)) by {
            assert forall|other: TouchView| #[trigger]
                with_link(after, LinkView::Touch(other)) == with_link(
                    adapter,
                    LinkView::Touch(other),
                ) by {}
        }
        lemma_exchange_runs(line, after, levels, limit);
        assert(settle(line, after, ended, limit) == settle(line, adapter, ended, limit));
    } else {
        let burst = op.burst() as int;
        let part = levels.subrange(op.done as int, op.done + burst);
        assert(reply == ReplyView::Data(wire_bytes(part)));
        assert(binary(part));
        lemma_binary_levels_echo(part);
        if op.done + burst == op.bits.len() {
            assert(part =~= levels.skip(op.done as int));
        } else {
            let next = TouchView {
                done: (op.done + burst) as usize,
                echoed: op.echoed + part,
                reading: false,
                ..op
            };
            assert(after == with_link(adapter, LinkView::Touch(next)));
            assert(echoes_slots(line, after, levels)) by {
                assert forall|other: TouchView| #[trigger]
                    with_link(after, LinkView::Touch(other)) == with_link(
                        adapter,
                        LinkView::Touch(other),
                    ) by {}
            }
            lemma_exchange_runs(line, after, levels, limit);
            assert(next.echoed + levels.skip(next.done as int) =~= op.echoed + levels.skip(
                op.done as int,
            ));
            assert(settle(line, after, ended, limit) == settle(line, adapter, ended, limit));
        }
    }
}

/// The adapter with `job` in progress and `primitive` just issued.
pub open spec fn issued(chunk: usize, job: JobView, primitive: PrimitiveView) -> AdapterView {
    AdapterView { chunk, job: Some(job), link: LinkView::start(primitive, chunk) }
}

/// A reset on a line that answers the pulse with `echo` ends, after its
/// six actions, with presence exactly where the echo shows a device.
proof fn lemma_reset_runs(
    line: spec_fn(AdapterView) -> ReplyView,
    chunk: usize,
    job: JobView,
    echo: u8,
    limit: nat,
)
    requires
        chunk >= 1,
        job.wf(),
        echoes_reset(line, issued(chunk, job, PrimitiveView::Reset), echo),
    ensures
        run_adapter(line, issued(chunk, job, PrimitiveView::Reset), limit + 6) == settle(
            line,
            issued(chunk, job, PrimitiveView::Reset),
            Ok(ResponseView::Presence(presence_detected(echo))),
            limit,
        ),
{
    let clearing = issued(chunk, job, PrimitiveView::Reset);
    let quiet = Ok::<bool, OneWireError>(false);
    let stage = |stage: ResetStage, verdict: Result<bool, OneWireError>|
        with_link(clearing, LinkView::Reset(ResetOp { stage, verdict }));
    let lowering = stage(ResetStage::Lowering, quiet);
    let pulsing = stage(ResetStage::Pulsing, quiet);
    let settling = stage(ResetStage::Settling, quiet);
    let sampling = stage(ResetStage::Sampling, quiet);
    let restoring = stage(ResetStage::Restoring, Ok(presence_detected(echo)));
    assert(clearing == stage(ResetStage::Clearing, quiet));
    assert(clearing.resumed(line(clearing)) == lowering);
    assert(lowering.resumed(line(lowering)) == pulsing);
    assert(pulsing.resumed(line(pulsing)) == settling);
    assert(settling.resumed(line(settling)) == sampling);
    assert(line(sampling) == ReplyView::Data(seq![echo]));
    assert(sampling.resumed(line(sampling)) == restoring);
    assert(run_adapter(line, clearing, limit + 6) == run_adapter(line, lowering, limit + 5));
    assert(run_adapter(line, lowering, limit + 5) == run_adapter(line, pulsing, limit + 4));
    assert(run_adapter(line, pulsing, limit + 4) == run_adapter(line, settling, limit + 3));
    assert(run_adapter(line, settling, limit + 3) == run_adapter(line, sampling, limit + 2));
    assert(run_adapter(line, sampling, limit + 2) == run_adapter(line, restoring, limit + 1));
    assert(restoring.link.next(line(restoring)) is None);
    assert(restoring.link.result(line(restoring)) == Ok::<ResponseView, OneWireError>(
        ResponseView::Presence(presence_detected(echo)),
    ));
}

/// The echo with which a bus of `devices` answers a reset pulse.
pub open spec fn reset_echo(present: bool) -> u8 {
    if present {
        PRESENCE_ECHO
    } else {
        RESET_FRAME
    }
}

proof fn lemma_search_line(devices: Set<Seq<u8>>, adapter: AdapterView)
    ensures
        echoes_slots(search_line(devices), adapter, slot_levels(devices, adapter.job)),
        echoes_reset(
            search_line(devices),
            adapter,
            reset_echo(!(devices =~= Set::<Seq<u8>>::empty())),
        ),
        presence_detected(reset_echo(true)),
        !presence_detected(reset_echo(false)),
{
}

proof fn lemma_command_is_binary()
    ensures
        binary(byte_bits(SEARCH_ROM)),
        byte_bits(SEARCH_ROM).len() == 8,
{
    assert forall|i: int| 0 <= i < 8 implies #[trigger] byte_bits(SEARCH_ROM)[i] == 0 || byte_bits(
        SEARCH_ROM,
    )[i] == 1 by {
        lemma_bit_of_byte(SEARCH_ROM, i as usize);
    }
}

proof fn lemma_bit_of_byte(byte: u8, k: usize)
    by (bit_vector)
    requires
        k < 8,
    ensures
        (byte >> k) & 1 == 0 || (byte >> k) & 1 == 1,
{
}

/// The bit that round `j` takes once `round` is decided, as a level.
pub open spec fn chosen_level(
    devices: Set<Seq<u8>>,
    order: Seq<Seq<u8>>,
    parting: Seq<int>,
    j: int,
    round: RoundView,
) -> u8 {
    let state = before_round(order, parting, j);
    level(
        round.direction(
            bus_id(devices, round.rom, round.decided as int),
            bus_complement(devices, round.rom, round.decided as int),
            state.last_discrepancy,
            state.last_rom,
        ) == Some(true),
    )
}

/// Round `j` after the next bit of `round` is decided.
pub open spec fn decided_round(
    devices: Set<Seq<u8>>,
    order: Seq<Seq<u8>>,
    parting: Seq<int>,
    j: int,
    round: RoundView,
) -> RoundView {
    let state = before_round(order, parting, j);
    round.decide(
        bus_id(devices, round.rom, round.decided as int),
        bus_complement(devices, round.rom, round.decided as int),
        state.last_discrepancy,
        state.last_rom,
    ).unwrap()
}

/// The adapter while round `j` of a search reads a bit and its complement.
pub open spec fn asking(
    order: Seq<Seq<u8>>,
    parting: Seq<int>,
    j: int,
    round: RoundView,
    chunk: usize,
) -> AdapterView {
    issued(
        chunk,
        JobView::Search {
            state: before_round(order, parting, j),
            round,
            phase: SearchPhase::Reading,
        },
        PrimitiveView::Touch(pair_slots()),
    )
}

/// The adapter while round `j` of a search drives the chosen bit back.
pub open spec fn driving(
    order: Seq<Seq<u8>>,
    parting: Seq<int>,
    j: int,
    round: RoundView,
    direction: u8,
    chunk: usize,
) -> AdapterView {
    issued(
        chunk,
        JobView::Search {
            state: before_round(order, parting, j),
            round,
            phase: SearchPhase::Steering,
        },
        PrimitiveView::Touch(seq![direction]),
    )
}

/// The adapter as round `j` of a search starts with its reset.
pub open spec fn resetting(
    order: Seq<Seq<u8>>,
    parting: Seq<int>,
    j: int,
    left_over: RoundView,
    chunk: usize,
) -> AdapterView {
    issued(
        chunk,
        JobView::Search {
            state: before_round(order, parting, j),
            round: left_over,
            phase: SearchPhase::Resetting,
        },
        PrimitiveView::Reset,
    )
}

/// Round `j` as it closes.
pub open spec fn closing_round(order: Seq<Seq<u8>>, parting: Seq<int>, j: int) -> RoundView {
    RoundView { decided: ROM_BITS, rom: order[j], marker: opened_place(parting, j) as u8 }
}

/// The two read slots of a bit: the search decides the bit as the code
/// of round `j` has it, and goes on to drive it back.
proof fn lemma_ask_runs(
    devices: Set<Seq<u8>>,
    order: Seq<Seq<u8>>,
    parting: Seq<int>,
    j: int,
    round: RoundView,
    chunk: usize,
    limit: nat,
)
    requires
        single_line(order, parting),
        devices == order.to_set(),
        0 <= j < order.len(),
        round_on_course(order, parting, j, round),
        round.decided < ROM_BITS,
        chunk >= 1,
    ensures
        run_adapter(
            search_line(devices),
            asking(order, parting, j, round, chunk),
            limit + exchange_actions(2, chunk, false),
        ) == run_adapter(
            search_line(devices),
            driving(
                order,
                parting,
                j,
                decided_round(devices, order, parting, j, round),
                chosen_level(devices, order, parting, j, round),
                chunk,
            ),
            limit,
        ),
        round_on_course(order, parting, j, decided_round(devices, order, parting, j, round)),
        decided_round(devices, order, parting, j, round).decided == round.decided + 1,
{
    let state = before_round(order, parting, j);
    let reading = JobView::Search { state, round, phase: SearchPhase::Reading };
    let id = bus_id(devices, round.rom, round.decided as int);
    let complement = bus_complement(devices, round.rom, round.decided as int);
    lemma_round_step(devices, order, parting, j, round);
    let next = decided_round(devices, order, parting, j, round);
    let direction = chosen_level(devices, order, parting, j, round);
    let steering = JobView::Search { state, round: next, phase: SearchPhase::Steering };
    let here = asking(order, parting, j, round, chunk);
    let pair = seq![level(id), level(complement)];
    assert(slot_levels(devices, here.job) == pair);
    assert(binary(pair));
    assert(pair.skip(0) =~= pair);
    assert(Seq::<u8>::empty() + pair =~= pair);
    lemma_search_line(devices, here);
    lemma_exchange_runs(search_line(devices), here, pair, limit);
    assert((pair[0] != 0) == id && (pair[1] != 0) == complement);
    assert(job_advance(reading, Ok(ResponseView::Bits(pair))) == JobStepView::Issue(
        steering,
        PrimitiveView::Touch(seq![direction]),
    ));
    assert(here.launched(steering, PrimitiveView::Touch(seq![direction])) == driving(
        order,
        parting,
        j,
        next,
        direction,
        chunk,
    ));
}

/// The slot that drives a bit back: the search goes on to the next bit,
/// or closes the round after the last, keeping the code of round `j`.
proof fn lemma_drive_runs(
    devices: Set<Seq<u8>>,
    order: Seq<Seq<u8>>,
    parting: Seq<int>,
    j: int,
    round: RoundView,
    direction: u8,
    chunk: usize,
    limit: nat,
)
    requires
        valid_codes(order),
        single_line(order, parting),
        devices == order.to_set(),
        0 <= j < order.len(),
        round_on_course(order, parting, j, round),
        round.decided >= 1,
        chunk >= 1,
    ensures
        run_adapter(
            search_line(devices),
            driving(order, parting, j, round, direction, chunk),
            limit + exchange_actions(1, chunk, false),
        ) == (if round.decided < ROM_BITS {
            run_adapter(search_line(devices), asking(order, parting, j, round, chunk), limit)
        } else if j + 1 < order.len() {
            run_adapter(
                search_line(devices),
                resetting(order, parting, j + 1, closing_round(order, parting, j), chunk),
                limit,
            )
        } else {
            Some(Ok(OutcomeView::Sensors(order)))
        }),
{
    let state = before_round(order, parting, j);
    let steering = JobView::Search { state, round, phase: SearchPhase::Steering };
    let here = driving(order, parting, j, round, direction, chunk);
    let echo = seq![level(rom_bit(round.rom, round.decided - 1))];
    assert(slot_levels(devices, here.job) == echo);
    assert(binary(echo));
    assert(echo.skip(0) =~= echo);
    assert(Seq::<u8>::empty() + echo =~= echo);
    lemma_search_line(devices, here);
    lemma_exchange_runs(search_line(devices), here, echo, limit);
    if round.decided >= ROM_BITS {
        assert(same_below(round.rom, order[j], 64));
        lemma_same_bits_same_code(round.rom, order[j]);
        assert(round == closing_round(order, parting, j));
        assert(DiscoveryView::accepts(round));
        assert(order.take(j).push(order[j]) =~= order.take(j + 1));
        if j + 1 < order.len() {
            let after = JobView::Search {
                state: before_round(order, parting, j + 1),
                round,
                phase: SearchPhase::Resetting,
            };
            assert(state.after_round(round) == before_round(order, parting, j + 1));
            assert(job_advance(steering, Ok(ResponseView::Bits(echo))) == JobStepView::Issue(
                after,
                PrimitiveView::Reset,
            ));
            assert(here.launched(after, PrimitiveView::Reset) == resetting(
                order,
                parting,
                j + 1,
                round,
                chunk,
            ));
        } else {
            assert(order.take(j + 1) =~= order);
        }
    } else {
        let again = JobView::Search { state, round, phase: SearchPhase::Reading };
        assert(job_advance(steering, Ok(ResponseView::Bits(echo))) == JobStepView::Issue(
            again,
            PrimitiveView::Touch(pair_slots()),
        ));
        assert(here.launched(again, PrimitiveView::Touch(pair_slots())) == asking(
            order,
            parting,
            j,
            round,
            chunk,
        ));
    }
}

/// From a bit on, round `j` of a search on the adapter decides each bit as
/// its own code has it and then closes.
proof fn lemma_walk_runs(
    devices: Set<Seq<u8>>,
    order: Seq<Seq<u8>>,
    parting: Seq<int>,
    j: int,
    round: RoundView,
    chunk: usize,
    limit: nat,
)
    requires
        valid_codes(order),
        single_line(order, parting),
        devices == order.to_set(),
        0 <= j < order.len(),
        round_on_course(order, parting, j, round),
        round.decided < ROM_BITS,
        chunk >= 1,
    ensures
        run_adapter(
            search_line(devices),
            asking(order, parting, j, round, chunk),
            limit + walk_actions((ROM_BITS - round.decided) as nat, chunk),
        ) == (if j + 1 < order.len() {
            run_adapter(
                search_line(devices),
                resetting(order, parting, j + 1, closing_round(order, parting, j), chunk),
                limit,
            )
        } else {
            Some(Ok(OutcomeView::Sensors(order)))
        }),
    decreases ROM_BITS - round.decided,
{
    let next = decided_round(devices, order, parting, j, round);
    let direction = chosen_level(devices, order, parting, j, round);
    let rest = walk_actions((ROM_BITS - round.decided - 1) as nat, chunk);
    let two = exchange_actions(2, chunk, false);
    let one = exchange_actions(1, chunk, false);
    assert(walk_actions((ROM_BITS - round.decided) as nat, chunk) == two + one + rest);
    lemma_ask_runs(devices, order, parting, j, round, chunk, limit + one + rest);
    lemma_drive_runs(devices, order, parting, j, next, direction, chunk, limit + rest);
    if next.decided < ROM_BITS {
        lemma_walk_runs(devices, order, parting, j, next, chunk, limit);
    }
}

/// From round `j` on, a search on the adapter ends with every code.
proof fn lemma_rounds_run(
    devices: Set<Seq<u8>>,
    order: Seq<Seq<u8>>,
    parting: Seq<int>,
    j: int,
    left_over: RoundView,
    chunk: usize,
)
    requires
        valid_codes(order),
        single_line(order, parting),
        devices == order.to_set(),
        0 <= j < order.len(),
        left_over.wf(),
        chunk >= 1,
    ensures
        run_adapter(
            search_line(devices),
            resetting(order, parting, j, left_over, chunk),
            discovery_actions((order.len() - j) as nat, chunk),
        ) == Some(Ok::<OutcomeView, OneWireError>(OutcomeView::Sensors(order))),
    decreases order.len() - j,
{
    let more: nat = if j + 1 < order.len() {
        discovery_actions((order.len() - j - 1) as nat, chunk)
    } else {
        0
    };
    let walk = walk_actions(64, chunk);
    assert(discovery_actions((order.len() - j) as nat, chunk) == 6 + exchange_actions(
        8,
        chunk,
        false,
    ) + walk + more);
    lemma_round_opens(devices, order, parting, j, left_over, chunk, walk + more);
    let fresh = RoundView::fresh();
    assert(round_on_course(order, parting, j, fresh)) by {
        assert forall|q: int| 0 <= q < ROM_BITS implies !#[trigger] rom_bit(fresh.rom, q) by {
            lemma_zero_has_no_bit((q % 8) as usize);
        }
    }
    lemma_walk_runs(devices, order, parting, j, fresh, chunk, more);
    if j + 1 < order.len() {
        lemma_rounds_run(devices, order, parting, j + 1, closing_round(order, parting, j), chunk);
    }
}

/// The reset and the command of round `j`: a device answers, the command
/// goes out, and the walk over the bits begins.
proof fn lemma_round_opens(
    devices: Set<Seq<u8>>,
    order: Seq<Seq<u8>>,
    parting: Seq<int>,
    j: int,
    left_over: RoundView,
    chunk: usize,
    limit: nat,
)
    requires
        devices == order.to_set(),
        0 <= j < order.len(),
        left_over.wf(),
        chunk >= 1,
    ensures
        run_adapter(
            search_line(devices),
            resetting(order, parting, j, left_over, chunk),
            limit + 6 + exchange_actions(8, chunk, false),
        ) == run_adapter(
            search_line(devices),
            asking(order, parting, j, RoundView::fresh(), chunk),
            limit,
        ),
{
    let state = before_round(order, parting, j);
    let opening = JobView::Search { state, round: left_over, phase: SearchPhase::Resetting };
    let commanding = JobView::Search { state, round: left_over, phase: SearchPhase::Commanding };
    let reading = JobView::Search {
        state,
        round: RoundView::fresh(),
        phase: SearchPhase::Reading,
    };
    let eight = exchange_actions(8, chunk, false);
    assert(order.contains(order[j]));
    assert(devices.contains(order[j]));
    assert(!(devices =~= Set::<Seq<u8>>::empty()));

    let start = resetting(order, parting, j, left_over, chunk);
    lemma_search_line(devices, start);
    lemma_reset_runs(search_line(devices), chunk, opening, reset_echo(true), limit + eight);
    let command = PrimitiveView::Touch(byte_bits(SEARCH_ROM));
    assert(job_advance(opening, Ok(ResponseView::Presence(true))) == JobStepView::Issue(
        commanding,
        command,
    ));
    let sending = issued(chunk, commanding, command);
    assert(start.launched(commanding, command) == sending);

    lemma_command_is_binary();
    let sent = byte_bits(SEARCH_ROM);
    assert(slot_levels(devices, sending.job) == sent);
    assert(sent.skip(0) =~= sent);
    assert(Seq::<u8>::empty() + sent =~= sent);
    lemma_search_line(devices, sending);
    lemma_exchange_runs(search_line(devices), sending, sent, limit);
    assert(job_advance(commanding, Ok(ResponseView::Bits(sent))) == JobStepView::Issue(
        reading,
        PrimitiveView::Touch(pair_slots()),
    ));
    assert(sending.launched(reading, PrimitiveView::Touch(pair_slots())) == asking(
        order,
        parting,
        j,
        RoundView::fresh(),
        chunk,
    ));
}

/// A search started on the adapter and resumed with the replies of a bus
/// of devices ends with the code of every device, each once, whatever the
/// order in which the devices answer and whatever the burst size, provided
/// the codes form a single line of branches. It takes one round for each
/// device, and a lone reset where there is none.
pub proof fn lemma_discovery_finds_every_device(
    devices: Set<Seq<u8>>,
    order: Seq<Seq<u8>>,
    parting: Seq<int>,
    adapter: AdapterView,
)
    requires
        valid_codes(order),
        single_line(order, parting),
        devices == order.to_set(),
        adapter.wf(),
        adapter.idle(),
    ensures
        run_adapter(
            search_line(devices),
            adapter.launched(search_job(), PrimitiveView::Reset),
            discovery_actions(order.len(), adapter.chunk),
        ) == Some(Ok::<OutcomeView, OneWireError>(OutcomeView::Sensors(order))),
{
    let start = adapter.launched(search_job(), PrimitiveView::Reset);
    assert(start == issued(adapter.chunk, search_job(), PrimitiveView::Reset));
    assert(before_round(order, parting, 0) == DiscoveryView::fresh()) by {
        assert(order.take(0) =~= Seq::<Seq<u8>>::empty());
    }
    assert(start == resetting(order, parting, 0, RoundView::fresh(), adapter.chunk));
    if order.len() == 0 {
        assert(devices =~= Set::<Seq<u8>>::empty());
        assert(DiscoveryView::fresh().sensors =~= order);
        lemma_search_line(devices, start);
        lemma_reset_runs(search_line(devices), adapter.chunk, search_job(), reset_echo(false), 0);
    } else {
        assert(before_round(order, parting, 0) == DiscoveryView::fresh()) by {
            assert(order.take(0) =~= Seq::<Seq<u8>>::empty());
        }
        lemma_rounds_run(devices, order, parting, 0, RoundView::fresh(), adapter.chunk);
    }
}

/// A bus as the temperature read of one device sees it.
pub struct Thermometer {
    /// A device answers the reset before the conversion.
    pub present: bool,
    /// The devices are gone by the reset after the conversion.
    pub lost: bool,
    /// The nine bytes that the line carries while the scratchpad is read:
    /// those of the addressed device, or all ones where none is addressed.
    pub scratchpad: Seq<u8>,
}

/// A device answers the reset that is primitive `index` of a read.
pub open spec fn thermometer_presence(bus: Thermometer, job: Option<JobView>) -> bool {
    match job {
        Some(JobView::Temperature { index, .. }) => bus.present && (index == 0 || !bus.lost),
        _ => false,
    }
}

/// The levels of the slots that the exchange in progress drives: the bits
/// of the scratchpad where it is read, the bits as sent anywhere else.
pub open spec fn thermometer_levels(bus: Thermometer, job: Option<JobView>) -> Seq<u8> {
    match job {
        Some(JobView::Temperature { rom, index, .. }) => if index >= 23 {
            byte_bits(bus.scratchpad[index - 23])
        } else {
            match temperature_primitive(rom, index as int) {
                PrimitiveView::Touch(bits) => bits,
                _ => Seq::empty(),
            }
        },
        _ => Seq::empty(),
    }
}

/// The line of a bus during a temperature read: every action succeeds, a
/// reset pulse is answered where a device is there, and each slot is echoed
/// at the level that the line takes.
pub open spec fn thermometer_line(bus: Thermometer) -> spec_fn(AdapterView) -> ReplyView {
    |adapter: AdapterView|
        match adapter.link {
            LinkView::Reset(op) => if op.stage is Sampling {
                ReplyView::Data(seq![reset_echo(thermometer_presence(bus, adapter.job))])
            } else {
                ReplyView::Done
            },
            LinkView::Touch(op) => if op.reading {
                ReplyView::Data(
                    wire_bytes(
                        thermometer_levels(bus, adapter.job).subrange(
                            op.done as int,
                            op.done + op.burst(),
                        ),
                    ),
                )
            } else {
                ReplyView::Done
            },
            _ => ReplyView::Done,
        }
}

/// The number of actions that primitive `index` of a temperature read takes.
pub open spec fn step_actions(index: int, chunk: usize) -> nat {
    if index == 0 || index == 12 {
        6
    } else if index == 11 {
        1
    } else {
        exchange_actions(8, chunk, false)
    }
}

/// The number of actions that primitives `from` up to `to`, the latter
/// left out, of a temperature read take.
pub open spec fn span_actions(from: int, to: int, chunk: usize) -> nat
    decreases to - from,
{
    if from >= to {
        0
    } else {
        step_actions(from, chunk) + span_actions(from + 1, to, chunk)
    }
}

/// The scratchpad as far as received when primitive `index` is out.
pub open spec fn received(bus: Thermometer, index: int) -> Seq<u8> {
    Seq::new(
        9,
        |k: int|
            if k < index - 23 {
                bus.scratchpad[k]
            } else {
                0u8
            },
    )
}

/// A temperature read of `rom` with primitive `index` just issued.
pub open spec fn reading_at(chunk: usize, rom: Seq<u8>, bus: Thermometer, index: int) -> AdapterView {
    issued(
        chunk,
        JobView::Temperature { rom, index: index as u8, scratchpad: received(bus, index) },
        temperature_primitive(rom, index),
    )
}

/// What a read reports from the scratchpad that the line carried.
pub open spec fn reading_of(scratchpad: Seq<u8>) -> Result<OutcomeView, OneWireError> {
    if crc8(scratchpad) == 0 {
        Ok(
            OutcomeView::Temperature(
                Temperature { raw: register_value(scratchpad[0], scratchpad[1]) as i16 },
            ),
        )
    } else {
        Err(OneWireError::IntegrityError)
    }
}

proof fn lemma_byte_is_binary(byte: u8)
    ensures
        binary(byte_bits(byte)),
        byte_bits(byte).len() == 8,
{
    assert forall|i: int| 0 <= i < 8 implies #[trigger] byte_bits(byte)[i] == 0 || byte_bits(
        byte,
    )[i] == 1 by {
        lemma_bit_of_byte(byte, i as usize);
    }
}

proof fn lemma_thermometer_line(bus: Thermometer, adapter: AdapterView)
    ensures
        echoes_slots(thermometer_line(bus), adapter, thermometer_levels(bus, adapter.job)),
        echoes_reset(
            thermometer_line(bus),
            adapter,
            reset_echo(thermometer_presence(bus, adapter.job)),
        ),
{
}

/// One primitive of a temperature read on the line of a thermometer: where
/// a reset finds the device, the read goes on with the next primitive, and
/// after the last it reports what the scratchpad holds.
proof fn lemma_reading_step(
    bus: Thermometer,
    chunk: usize,
    rom: Seq<u8>,
    index: int,
    limit: nat,
)
    requires
        chunk >= 1,
        0 <= index <= LAST_TEMPERATURE_STEP,
        bus.scratchpad.len() == 9,
        index == 0 ==> bus.present,
        index == 12 ==> bus.present && !bus.lost,
    ensures
        run_adapter(
            thermometer_line(bus),
            reading_at(chunk, rom, bus, index),
            limit + step_actions(index, chunk),
        ) == (if index < LAST_TEMPERATURE_STEP {
            run_adapter(thermometer_line(bus), reading_at(chunk, rom, bus, index + 1), limit)
        } else {
            Some(reading_of(bus.scratchpad))
        }),
{
    let line = thermometer_line(bus);
    let here = reading_at(chunk, rom, bus, index);
    let job = here.job.unwrap();
    let next = JobView::Temperature {
        rom,
        index: (index + 1) as u8,
        scratchpad: received(bus, index + 1),
    };
    lemma_thermometer_line(bus, here);
    if index == 0 || index == 12 {
        lemma_reset_runs(line, chunk, job, reset_echo(true), limit);
        assert(received(bus, index) =~= received(bus, index + 1));
        assert(job_advance(job, Ok(ResponseView::Presence(true))) == JobStepView::Issue(
            next,
            temperature_primitive(rom, index + 1),
        ));
        assert(here.launched(next, temperature_primitive(rom, index + 1)) == reading_at(
            chunk,
            rom,
            bus,
            index + 1,
        ));
    } else if index == 11 {
        assert(line(here) == ReplyView::Done);
        assert(received(bus, index) =~= received(bus, index + 1));
        assert(job_advance(job, Ok(ResponseView::Elapsed)) == JobStepView::Issue(
            next,
            temperature_primitive(rom, index + 1),
        ));
        assert(here.launched(next, temperature_primitive(rom, index + 1)) == reading_at(
            chunk,
            rom,
            bus,
            index + 1,
        ));
    } else {
        let levels = thermometer_levels(bus, here.job);
        if index >= 23 {
            lemma_byte_is_binary(bus.scratchpad[index - 23]);
            lemma_byte_round_trip(bus.scratchpad[index - 23]);
        } else if index == 10 {
            lemma_byte_is_binary(CONVERT_T);
        } else if index == 22 {
            lemma_byte_is_binary(READ_SCRATCHPAD);
        } else if index <= 9 {
            lemma_byte_is_binary(select_byte(rom, index - 1));
        } else {
            lemma_byte_is_binary(select_byte(rom, index - 13));
        }
        assert(levels.skip(0) =~= levels);
        assert(Seq::<u8>::empty() + levels =~= levels);
        lemma_exchange_runs(line, here, levels, limit);
        let filled = if index >= 23 {
            received(bus, index).update(index - 23, bus.scratchpad[index - 23])
        } else {
            received(bus, index)
        };
        assert(filled =~= received(bus, index + 1));
        if index < LAST_TEMPERATURE_STEP {
            assert(job_advance(job, Ok(ResponseView::Bits(levels))) == JobStepView::Issue(
                next,
                temperature_primitive(rom, index + 1),
            ));
            assert(here.launched(next, temperature_primitive(rom, index + 1)) == reading_at(
                chunk,
                rom,
                bus,
                index + 1,
            ));
        } else {
            assert(filled =~= bus.scratchpad);
        }
    }
}

/// The primitives `from` up to `to` of a temperature read on the line of a
/// thermometer, as long as the resets among them find the device.
proof fn lemma_reading_runs(
    bus: Thermometer,
    chunk: usize,
    rom: Seq<u8>,
    from: int,
    to: int,
    limit: nat,
)
    requires
        chunk >= 1,
        0 <= from <= to <= LAST_TEMPERATURE_STEP,
        bus.scratchpad.len() == 9,
        bus.present,
        to > 12 ==> !bus.lost,
    ensures
        run_adapter(
            thermometer_line(bus),
            reading_at(chunk, rom, bus, from),
            limit + span_actions(from, to, chunk),
        ) == run_adapter(thermometer_line(bus), reading_at(chunk, rom, bus, to), limit),
    decreases to - from,
{
    if from < to {
        lemma_reading_runs(bus, chunk, rom, from + 1, to, limit);
        lemma_reading_step(bus, chunk, rom, from, limit + span_actions(from + 1, to, chunk));
    }
}

/// The adapter once a temperature read of `rom` was started on it.
pub open spec fn reading_started(adapter: AdapterView, rom: Seq<u8>) -> AdapterView {
    adapter.launched(
        JobView::Temperature { rom, index: 0, scratchpad: Seq::new(9, |i: int| 0u8) },
        PrimitiveView::Reset,
    )
}

proof fn lemma_reading_started(adapter: AdapterView, rom: Seq<u8>, bus: Thermometer)
    ensures
        reading_started(adapter, rom) == reading_at(adapter.chunk, rom, bus, 0),
{
    assert(received(bus, 0) =~= Seq::new(9, |i: int| 0u8));
}

/// A temperature read on a bus where the device stays and answers ends
/// with the register of the scratchpad that the line carried, provided the
/// scratchpad's CRC-8 checks, and with an integrity error otherwise,
/// whatever the burst size.
pub proof fn lemma_temperature_read(bus: Thermometer, adapter: AdapterView, rom: Seq<u8>)
    requires
        adapter.wf(),
        adapter.idle(),
        bus.present,
        !bus.lost,
        bus.scratchpad.len() == 9,
    ensures
        run_adapter(
            thermometer_line(bus),
            reading_started(adapter, rom),
            span_actions(0, 32, adapter.chunk),
        ) == Some(reading_of(bus.scratchpad)),
{
    lemma_reading_started(adapter, rom, bus);
    assert(span_actions(0, 32, adapter.chunk) == span_actions(0, 31, adapter.chunk)
        + step_actions(31, adapter.chunk)) by {
        lemma_span_splits(0, 31, 32, adapter.chunk);
        assert(span_actions(32, 32, adapter.chunk) == 0);
        assert(span_actions(31, 32, adapter.chunk) == step_actions(31, adapter.chunk));
    }
    lemma_reading_runs(bus, adapter.chunk, rom, 0, 31, step_actions(31, adapter.chunk));
    lemma_reading_step(bus, adapter.chunk, rom, 31, 0);
}

proof fn lemma_span_splits(from: int, middle: int, to: int, chunk: usize)
    requires
        from <= middle <= to,
    ensures
        span_actions(from, to, chunk) == span_actions(from, middle, chunk) + span_actions(
            middle,
            to,
            chunk,
        ),
    decreases middle - from,
{
    if from < middle {
        lemma_span_splits(from + 1, middle, to, chunk);
    }
}

/// A temperature read on a bus where no device answers the first reset
/// ends after that reset: the device is not present.
pub proof fn lemma_temperature_without_device(bus: Thermometer, adapter: AdapterView, rom: Seq<u8>)
    requires
        adapter.wf(),
        adapter.idle(),
        !bus.present,
    ensures
        run_adapter(thermometer_line(bus), reading_started(adapter, rom), 6) == Some(
            Err::<OutcomeView, OneWireError>(
                OneWireError::DeviceNotPresent(PresenceCheck::BeforeConversion),
            ),
        ),
{
    lemma_reading_started(adapter, rom, bus);
    let start = reading_at(adapter.chunk, rom, bus, 0);
    lemma_thermometer_line(bus, start);
    lemma_reset_runs(
        thermometer_line(bus),
        adapter.chunk,
        start.job.unwrap(),
        reset_echo(false),
        0,
    );
}

/// A temperature read of a device that is gone by the second reset ends
/// after that reset: the device is not present, and no temperature is
/// reported.
pub proof fn lemma_temperature_of_lost_device(bus: Thermometer, adapter: AdapterView, rom: Seq<u8>)
    requires
        adapter.wf(),
        adapter.idle(),
        bus.present,
        bus.lost,
        bus.scratchpad.len() == 9,
    ensures
        run_adapter(
            thermometer_line(bus),
            reading_started(adapter, rom),
            span_actions(0, 12, adapter.chunk) + 6,
        ) == Some(
            Err::<OutcomeView, OneWireError>(
                OneWireError::DeviceNotPresent(PresenceCheck::AfterConversion),
            ),
        ),
{
    lemma_reading_started(adapter, rom, bus);
    lemma_reading_runs(bus, adapter.chunk, rom, 0, 12, 6);
    let second = reading_at(adapter.chunk, rom, bus, 12);
    lemma_thermometer_line(bus, second);
    lemma_reset_runs(
        thermometer_line(bus),
        adapter.chunk,
        second.job.unwrap(),
        reset_echo(false),
        0,
    );
}

} // verus!
