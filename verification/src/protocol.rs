//! The bus operations as sequences of primitives: which primitive each
//! operation issues next, given how the last one ended, and what it reports
//! in the end.

use vstd::prelude::*;
use crate::bits::{bits_byte, bits_to_byte, byte_bits, byte_to_bits};
use crate::crc::crc8;
use crate::search::{
    rom_list, DiscoveryState, DiscoveryView, RoundView, SearchRound, ROM_BITS,
};
use crate::temperature::{decode_scratchpad, register_value, Temperature};
use crate::transport::{OneWireError, PresenceCheck};

verus! {

/// Command byte: start a ROM search.
pub const SEARCH_ROM: u8 = 0xF0;

/// Command byte: address the device whose ROM code follows.
pub const MATCH_ROM: u8 = 0x55;

/// Command byte: address every device at once.
pub const SKIP_ROM: u8 = 0xCC;

/// Command byte: start a temperature conversion.
pub const CONVERT_T: u8 = 0x44;

/// Command byte: send the scratchpad.
pub const READ_SCRATCHPAD: u8 = 0xBE;

/// Milliseconds that a conversion at full resolution may take.
pub const CONVERSION_MS: u64 = 750;

/// Index of the last primitive of a temperature read.
pub const LAST_TEMPERATURE_STEP: u8 = 31;

/// One request to the bus.
#[derive(Debug, PartialEq, Eq)]
pub enum Primitive {
    /// Reset the bus and look for a presence pulse.
    Reset,
    /// Drive these bits, one per slot, and sample the bus in each slot.
    Touch(Vec<u8>),
    /// Leave the bus alone for this many milliseconds.
    Delay(u64),
}

/// A `Primitive` with its bits as a mathematical sequence.
pub enum PrimitiveView {
    Reset,
    Touch(Seq<u8>),
    Delay(u64),
}

impl View for Primitive {
    type V = PrimitiveView;

    open spec fn view(&self) -> PrimitiveView {
        match *self {
            Primitive::Reset => PrimitiveView::Reset,
            Primitive::Touch(bits) => PrimitiveView::Touch(bits@),
            Primitive::Delay(millis) => PrimitiveView::Delay(millis),
        }
    }
}

/// How a primitive ended.
#[derive(Debug, PartialEq, Eq)]
pub enum Response {
    /// A reset ended; the flag tells whether a device answered.
    Presence(bool),
    /// An exchange ended; these are the levels sampled, one per slot.
    Bits(Vec<u8>),
    /// A delay has passed.
    Elapsed,
}

/// A `Response` with its bits as a mathematical sequence.
pub enum ResponseView {
    Presence(bool),
    Bits(Seq<u8>),
    Elapsed,
}

impl View for Response {
    type V = ResponseView;

    open spec fn view(&self) -> ResponseView {
        match *self {
            Response::Presence(present) => ResponseView::Presence(present),
            Response::Bits(bits) => ResponseView::Bits(bits@),
            Response::Elapsed => ResponseView::Elapsed,
        }
    }
}

/// The view of a primitive's result.
pub open spec fn result_view(result: Result<Response, OneWireError>) -> Result<
    ResponseView,
    OneWireError,
> {
    match result {
        Ok(response) => Ok(response@),
        Err(fault) => Err(fault),
    }
}

/// What a bus operation delivers.
#[derive(Debug, PartialEq, Eq)]
pub enum Outcome {
    /// A reset: whether a device answered.
    Presence(bool),
    /// An exchange of bit slots: the levels sampled.
    Bits(Vec<u8>),
    /// A byte was written.
    Written,
    /// The byte that was read.
    Byte(u8),
    /// A device was addressed.
    Selected,
    /// The ROM codes that a search found.
    Sensors(Vec<[u8; 8]>),
    /// The temperature that a device reported.
    Temperature(Temperature),
}

/// An `Outcome` with its sequences as mathematical values.
pub enum OutcomeView {
    Presence(bool),
    Bits(Seq<u8>),
    Written,
    Byte(u8),
    Selected,
    Sensors(Seq<Seq<u8>>),
    Temperature(Temperature),
}

impl View for Outcome {
    type V = OutcomeView;

    open spec fn view(&self) -> OutcomeView {
        match *self {
            Outcome::Presence(present) => OutcomeView::Presence(present),
            Outcome::Bits(bits) => OutcomeView::Bits(bits@),
            Outcome::Written => OutcomeView::Written,
            Outcome::Byte(byte) => OutcomeView::Byte(byte),
            Outcome::Selected => OutcomeView::Selected,
            Outcome::Sensors(sensors) => OutcomeView::Sensors(rom_list(sensors@)),
            Outcome::Temperature(temperature) => OutcomeView::Temperature(temperature),
        }
    }
}

/// The view of an operation's result.
pub open spec fn outcome_view(result: Result<Outcome, OneWireError>) -> Result<
    OutcomeView,
    OneWireError,
> {
    match result {
        Ok(outcome) => Ok(outcome@),
        Err(fault) => Err(fault),
    }
}

/// Which primitive of a search round is out.
#[derive(Clone, Copy, PartialEq, Eq, Structural, Debug)]
pub enum SearchPhase {
    /// The reset that opens the round.
    Resetting,
    /// The search command.
    Commanding,
    /// The two read slots for a bit and its complement.
    Reading,
    /// The slot that drives the chosen bit back.
    Steering,
}

/// A bus operation in progress, between two primitives.
#[derive(Debug, PartialEq, Eq)]
pub enum Job {
    /// A reset.
    Reset,
    /// An exchange of bit slots.
    Touch,
    /// The write of one byte.
    WriteByte,
    /// The read of one byte.
    ReadByte,
    /// The selection of a device; byte `index` of the selection is out.
    Select { rom: [u8; 8], index: u8 },
    /// A temperature read; primitive `index` of its sequence is out.
    Temperature { rom: [u8; 8], index: u8, scratchpad: [u8; 9] },
    /// A ROM search.
    Search { state: DiscoveryState, round: SearchRound, phase: SearchPhase },
}

/// A `Job` with its sequences as mathematical values.
pub enum JobView {
    Reset,
    Touch,
    WriteByte,
    ReadByte,
    Select { rom: Seq<u8>, index: u8 },
    Temperature { rom: Seq<u8>, index: u8, scratchpad: Seq<u8> },
    Search { state: DiscoveryView, round: RoundView, phase: SearchPhase },
}

impl View for Job {
    type V = JobView;

    open spec fn view(&self) -> JobView {
        match *self {
            Job::Reset => JobView::Reset,
            Job::Touch => JobView::Touch,
            Job::WriteByte => JobView::WriteByte,
            Job::ReadByte => JobView::ReadByte,
            Job::Select { rom, index } => JobView::Select { rom: rom@, index },
            Job::Temperature { rom, index, scratchpad } => JobView::Temperature {
                rom: rom@,
                index,
                scratchpad: scratchpad@,
            },
            Job::Search { state, round, phase } => JobView::Search {
                state: state@,
                round: round@,
                phase,
            },
        }
    }
}

/// What an operation does once a primitive has ended.
pub enum JobStep {
    /// Go on: issue this primitive.
    Issue(Job, Primitive),
    /// The operation is over.
    Finish(Result<Outcome, OneWireError>),
}

/// A `JobStep` with its sequences as mathematical values.
pub enum JobStepView {
    Issue(JobView, PrimitiveView),
    Finish(Result<OutcomeView, OneWireError>),
}

impl View for JobStep {
    type V = JobStepView;

    open spec fn view(&self) -> JobStepView {
        match *self {
            JobStep::Issue(job, primitive) => JobStepView::Issue(job@, primitive@),
            JobStep::Finish(result) => JobStepView::Finish(outcome_view(result)),
        }
    }
}

/// Eight read slots: all ones, so that the device alone drives the line.
pub open spec fn read_slots() -> Seq<u8> {
    Seq::new(8, |i: int| 1u8)
}

/// The two read slots of a search step.
pub open spec fn pair_slots() -> Seq<u8> {
    seq![1u8, 1u8]
}

/// Byte `index` of a device selection: the command, then the ROM code.
pub open spec fn select_byte(rom: Seq<u8>, index: int) -> u8 {
    if index == 0 {
        MATCH_ROM
    } else {
        rom[index - 1]
    }
}

/// Primitive `index` of a temperature read: reset, select, convert, wait,
/// reset, select again, ask for the scratchpad, read its nine bytes.
pub open spec fn temperature_primitive(rom: Seq<u8>, index: int) -> PrimitiveView {
    if index == 0 || index == 12 {
        PrimitiveView::Reset
    } else if 1 <= index <= 9 {
        PrimitiveView::Touch(byte_bits(select_byte(rom, index - 1)))
    } else if index == 10 {
        PrimitiveView::Touch(byte_bits(CONVERT_T))
    } else if index == 11 {
        PrimitiveView::Delay(CONVERSION_MS)
    } else if 13 <= index <= 21 {
        PrimitiveView::Touch(byte_bits(select_byte(rom, index - 13)))
    } else if index == 22 {
        PrimitiveView::Touch(byte_bits(READ_SCRATCHPAD))
    } else {
        PrimitiveView::Touch(read_slots())
    }
}

/// The kind of response that answers primitive `index` of a temperature read.
pub open spec fn temperature_answered(index: int, response: ResponseView) -> bool {
    if index == 0 || index == 12 {
        response is Presence
    } else if index == 11 {
        response is Elapsed
    } else if index >= 23 {
        response matches ResponseView::Bits(bits) && bits.len() == 8
    } else {
        response is Bits
    }
}

/// What a temperature read does once primitive `index` has ended well.
pub open spec fn temperature_advance(
    rom: Seq<u8>,
    index: u8,
    scratchpad: Seq<u8>,
    response: ResponseView,
) -> JobStepView {
    if !temperature_answered(index as int, response) {
        JobStepView::Finish(Err(OneWireError::ShortRead))
    } else if index == 0 && response == ResponseView::Presence(false) {
        JobStepView::Finish(Err(OneWireError::DeviceNotPresent(PresenceCheck::BeforeConversion)))
    } else if index == 12 && response == ResponseView::Presence(false) {
        JobStepView::Finish(Err(OneWireError::DeviceNotPresent(PresenceCheck::AfterConversion)))
    } else {
        let filled = if index >= 23 {
            scratchpad.update(index - 23, bits_byte(response->Bits_0))
        } else {
            scratchpad
        };
        if index >= LAST_TEMPERATURE_STEP {
            JobStepView::Finish(
                if crc8(filled) == 0 {
                    Ok(
                        OutcomeView::Temperature(
                            Temperature { raw: register_value(filled[0], filled[1]) as i16 },
                        ),
                    )
                } else {
                    Err(OneWireError::IntegrityError)
                },
            )
        } else {
            JobStepView::Issue(
                JobView::Temperature { rom, index: (index + 1) as u8, scratchpad: filled },
                temperature_primitive(rom, index + 1),
            )
        }
    }
}

/// What a search does once a round has ended.
pub open spec fn search_close(state: DiscoveryView, round: RoundView) -> JobStepView {
    let next = state.after_round(round);
    if next.unfinished() {
        JobStepView::Issue(
            JobView::Search { state: next, round, phase: SearchPhase::Resetting },
            PrimitiveView::Reset,
        )
    } else {
        JobStepView::Finish(Ok(OutcomeView::Sensors(next.sensors)))
    }
}

/// What a search does once the primitive of `phase` has ended well.
pub open spec fn search_advance(
    state: DiscoveryView,
    round: RoundView,
    phase: SearchPhase,
    response: ResponseView,
) -> JobStepView {
    match phase {
        SearchPhase::Resetting => match response {
            ResponseView::Presence(true) => JobStepView::Issue(
                JobView::Search { state, round, phase: SearchPhase::Commanding },
                PrimitiveView::Touch(byte_bits(SEARCH_ROM)),
            ),
            ResponseView::Presence(false) => JobStepView::Finish(
                Ok(OutcomeView::Sensors(state.sensors)),
            ),
            _ => JobStepView::Finish(Err(OneWireError::ShortRead)),
        },
        SearchPhase::Commanding => match response {
            ResponseView::Bits(_) => JobStepView::Issue(
                JobView::Search { state, round: RoundView::fresh(), phase: SearchPhase::Reading },
                PrimitiveView::Touch(pair_slots()),
            ),
            _ => JobStepView::Finish(Err(OneWireError::ShortRead)),
        },
        SearchPhase::Reading => match response {
            ResponseView::Bits(bits) => if bits.len() != 2 || round.decided >= ROM_BITS {
                JobStepView::Finish(Err(OneWireError::ShortRead))
            } else {
                match round.decide(
                    bits[0] != 0,
                    bits[1] != 0,
                    state.last_discrepancy,
                    state.last_rom,
                ) {
                    None => search_close(state, round),
                    Some(next) => JobStepView::Issue(
                        JobView::Search { state, round: next, phase: SearchPhase::Steering },
                        PrimitiveView::Touch(
                            seq![
                                if round.direction(
                                    bits[0] != 0,
                                    bits[1] != 0,
                                    state.last_discrepancy,
                                    state.last_rom,
                                ) == Some(true) {
                                    1u8
                                } else {
                                    0u8
                                },
                            ],
                        ),
                    ),
                }
            },
            _ => JobStepView::Finish(Err(OneWireError::ShortRead)),
        },
        SearchPhase::Steering => match response {
            ResponseView::Bits(_) => if round.decided >= ROM_BITS {
                search_close(state, round)
            } else {
                JobStepView::Issue(
                    JobView::Search { state, round, phase: SearchPhase::Reading },
                    PrimitiveView::Touch(pair_slots()),
                )
            },
            _ => JobStepView::Finish(Err(OneWireError::ShortRead)),
        },
    }
}

/// What an operation does once a primitive has ended with `result`. A
/// failure of the primitive ends the operation with that failure; a response
/// of the wrong kind or length ends it as a short read.
pub open spec fn job_advance(job: JobView, result: Result<ResponseView, OneWireError>) -> JobStepView {
    match result {
        Err(fault) => JobStepView::Finish(Err(fault)),
        Ok(response) => match job {
            JobView::Reset => match response {
                ResponseView::Presence(present) => JobStepView::Finish(
                    Ok(OutcomeView::Presence(present)),
                ),
                _ => JobStepView::Finish(Err(OneWireError::ShortRead)),
            },
            JobView::Touch => match response {
                ResponseView::Bits(bits) => JobStepView::Finish(Ok(OutcomeView::Bits(bits))),
                _ => JobStepView::Finish(Err(OneWireError::ShortRead)),
            },
            JobView::WriteByte => match response {
                ResponseView::Bits(_) => JobStepView::Finish(Ok(OutcomeView::Written)),
                _ => JobStepView::Finish(Err(OneWireError::ShortRead)),
            },
            JobView::ReadByte => match response {
                ResponseView::Bits(bits) => if bits.len() == 8 {
                    JobStepView::Finish(Ok(OutcomeView::Byte(bits_byte(bits))))
                } else {
                    JobStepView::Finish(Err(OneWireError::ShortRead))
                },
                _ => JobStepView::Finish(Err(OneWireError::ShortRead)),
            },
            JobView::Select { rom, index } => match response {
                ResponseView::Bits(_) => if index >= 8 {
                    JobStepView::Finish(Ok(OutcomeView::Selected))
                } else {
                    JobStepView::Issue(
                        JobView::Select { rom, index: (index + 1) as u8 },
                        PrimitiveView::Touch(byte_bits(select_byte(rom, index + 1))),
                    )
                },
                _ => JobStepView::Finish(Err(OneWireError::ShortRead)),
            },
            JobView::Temperature { rom, index, scratchpad } => temperature_advance(
                rom,
                index,
                scratchpad,
                response,
            ),
            JobView::Search { state, round, phase } => search_advance(state, round, phase, response),
        },
    }
}

impl JobView {
    /// The position lies within the operation's sequence, and a search
    /// round in progress is well formed.
    pub open spec fn wf(self) -> bool {
        match self {
            JobView::Select { index, .. } => index <= 8,
            JobView::Temperature { index, .. } => index <= LAST_TEMPERATURE_STEP,
            JobView::Search { round, .. } => round.wf(),
            _ => true,
        }
    }
}

impl PrimitiveView {
    /// An exchange has at least one slot.
    pub open spec fn wf(self) -> bool {
        self matches PrimitiveView::Touch(bits) ==> bits.len() > 0
    }
}

/// The primitive that writes `byte`.
pub fn write_primitive(byte: u8) -> (primitive: Primitive)
    ensures
        primitive@ == PrimitiveView::Touch(byte_bits(byte)),
        primitive@.wf(),
{
    Primitive::Touch(byte_to_bits(byte))
}

/// The primitive that reads one byte.
pub fn read_primitive() -> (primitive: Primitive)
    ensures
        primitive@ == PrimitiveView::Touch(read_slots()),
        primitive@.wf(),
{
    let mut slots: Vec<u8> = Vec::new();
    let mut i: usize = 0;
    while i < 8
        invariant
            i <= 8,
            slots@.len() == i,
            forall|k: int| 0 <= k < i ==> slots@[k] == 1u8,
        decreases 8 - i,
    {
        slots.push(1);
        i += 1;
    }
    assert(slots@ =~= read_slots());
    Primitive::Touch(slots)
}

fn pair_primitive() -> (primitive: Primitive)
    ensures
        primitive@ == PrimitiveView::Touch(pair_slots()),
        primitive@.wf(),
{
    let mut slots: Vec<u8> = Vec::new();
    slots.push(1);
    slots.push(1);
    assert(slots@ =~= pair_slots());
    Primitive::Touch(slots)
}

fn steer_primitive(direction: u8) -> (primitive: Primitive)
    ensures
        primitive@ == PrimitiveView::Touch(seq![direction]),
        primitive@.wf(),
{
    let mut slots: Vec<u8> = Vec::new();
    slots.push(direction);
    assert(slots@ =~= seq![direction]);
    Primitive::Touch(slots)
}

/// Byte `index` of the selection of `rom`.
fn selection_byte(rom: &[u8; 8], index: u8) -> (byte: u8)
    requires
        index <= 8,
    ensures
        byte == select_byte(rom@, index as int),
{
    if index == 0 {
        MATCH_ROM
    } else {
        rom[(index - 1) as usize]
    }
}

/// Primitive `index` of a temperature read of `rom`.
pub fn temperature_step(rom: &[u8; 8], index: u8) -> (primitive: Primitive)
    requires
        index <= LAST_TEMPERATURE_STEP,
    ensures
        primitive@ == temperature_primitive(rom@, index as int),
        primitive@.wf(),
{
    if index == 0 || index == 12 {
        Primitive::Reset
    } else if index <= 9 {
        write_primitive(selection_byte(rom, index - 1))
    } else if index == 10 {
        write_primitive(CONVERT_T)
    } else if index == 11 {
        Primitive::Delay(CONVERSION_MS)
    } else if index <= 21 {
        write_primitive(selection_byte(rom, index - 13))
    } else if index == 22 {
        write_primitive(READ_SCRATCHPAD)
    } else {
        read_primitive()
    }
}

fn close_round(state: DiscoveryState, round: SearchRound) -> (step: JobStep)
    requires
        round@.wf(),
    ensures
        step@ == search_close(state@, round@),
        step matches JobStep::Issue(job, primitive) ==> job@.wf() && primitive@.wf(),
{
    let mut state = state;
    if state.finish_round(round) {
        JobStep::Issue(
            Job::Search { state, round, phase: SearchPhase::Resetting },
            Primitive::Reset,
        )
    } else {
        JobStep::Finish(Ok(Outcome::Sensors(state.sensors)))
    }
}

fn advance_search(
    state: DiscoveryState,
    round: SearchRound,
    phase: SearchPhase,
    response: Response,
) -> (step: JobStep)
    requires
        round@.wf(),
    ensures
        step@ == search_advance(state@, round@, phase, response@),
        step matches JobStep::Issue(job, primitive) ==> job@.wf() && primitive@.wf(),
{
    match phase {
        SearchPhase::Resetting => match response {
            Response::Presence(true) => JobStep::Issue(
                Job::Search { state, round, phase: SearchPhase::Commanding },
                write_primitive(SEARCH_ROM),
            ),
            Response::Presence(false) => JobStep::Finish(Ok(Outcome::Sensors(state.sensors))),
            _ => JobStep::Finish(Err(OneWireError::ShortRead)),
        },
        SearchPhase::Commanding => match response {
            Response::Bits(_) => JobStep::Issue(
                Job::Search { state, round: SearchRound::new(), phase: SearchPhase::Reading },
                pair_primitive(),
            ),
            _ => JobStep::Finish(Err(OneWireError::ShortRead)),
        },
        SearchPhase::Reading => match response {
            Response::Bits(bits) => if bits.len() != 2 || round.decided >= ROM_BITS {
                JobStep::Finish(Err(OneWireError::ShortRead))
            } else {
                let mut next = round;
                match next.decide(bits[0], bits[1], state.last_discrepancy, &state.last_rom) {
                    None => close_round(state, round),
                    Some(direction) => JobStep::Issue(
                        Job::Search { state, round: next, phase: SearchPhase::Steering },
                        steer_primitive(direction),
                    ),
                }
            },
            _ => JobStep::Finish(Err(OneWireError::ShortRead)),
        },
        SearchPhase::Steering => match response {
            Response::Bits(_) => if round.decided >= ROM_BITS {
                close_round(state, round)
            } else {
                JobStep::Issue(
                    Job::Search { state, round, phase: SearchPhase::Reading },
                    pair_primitive(),
                )
            },
            _ => JobStep::Finish(Err(OneWireError::ShortRead)),
        },
    }
}

fn advance_temperature(rom: [u8; 8], index: u8, scratchpad: [u8; 9], response: Response) -> (step:
    JobStep)
    requires
        index <= LAST_TEMPERATURE_STEP,
    ensures
        step@ == temperature_advance(rom@, index, scratchpad@, response@),
        step matches JobStep::Issue(job, primitive) ==> job@.wf() && primitive@.wf(),
{
    let mut scratchpad = scratchpad;
    match response {
        Response::Presence(present) => {
            if index != 0 && index != 12 {
                return JobStep::Finish(Err(OneWireError::ShortRead));
            }
            if !present {
                let check = if index == 0 {
                    PresenceCheck::BeforeConversion
                } else {
                    PresenceCheck::AfterConversion
                };
                return JobStep::Finish(Err(OneWireError::DeviceNotPresent(check)));
            }
        },
        Response::Elapsed => {
            if index != 11 {
                return JobStep::Finish(Err(OneWireError::ShortRead));
            }
        },
        Response::Bits(bits) => {
            if index == 0 || index == 11 || index == 12 {
                return JobStep::Finish(Err(OneWireError::ShortRead));
            }
            if index >= 23 {
                if bits.len() != 8 {
                    return JobStep::Finish(Err(OneWireError::ShortRead));
                }
                scratchpad[(index - 23) as usize] = bits_to_byte(bits.as_slice());
            }
        },
    }
    if index >= LAST_TEMPERATURE_STEP {
        match decode_scratchpad(&scratchpad) {
            Ok(temperature) => JobStep::Finish(Ok(Outcome::Temperature(temperature))),
            Err(fault) => JobStep::Finish(Err(fault)),
        }
    } else {
        JobStep::Issue(
            Job::Temperature { rom, index: index + 1, scratchpad },
            temperature_step(&rom, index + 1),
        )
    }
}

impl Job {
    /// Takes the result of the primitive that was out and says what the
    /// operation does next.
    pub fn advance(self, result: Result<Response, OneWireError>) -> (step: JobStep)
        requires
            self@.wf(),
        ensures
            step@ == job_advance(self@, result_view(result)),
            step matches JobStep::Issue(job, primitive) ==> job@.wf() && primitive@.wf(),
    {
        let response = match result {
            Ok(response) => response,
            Err(fault) => {
                return JobStep::Finish(Err(fault));
            },
        };
        match self {
            Job::Reset => match response {
                Response::Presence(present) => JobStep::Finish(Ok(Outcome::Presence(present))),
                _ => JobStep::Finish(Err(OneWireError::ShortRead)),
            },
            Job::Touch => match response {
                Response::Bits(bits) => JobStep::Finish(Ok(Outcome::Bits(bits))),
                _ => JobStep::Finish(Err(OneWireError::ShortRead)),
            },
            Job::WriteByte => match response {
                Response::Bits(_) => JobStep::Finish(Ok(Outcome::Written)),
                _ => JobStep::Finish(Err(OneWireError::ShortRead)),
            },
            Job::ReadByte => match response {
                Response::Bits(bits) => if bits.len() == 8 {
                    JobStep::Finish(Ok(Outcome::Byte(bits_to_byte(bits.as_slice()))))
                } else {
                    JobStep::Finish(Err(OneWireError::ShortRead))
                },
                _ => JobStep::Finish(Err(OneWireError::ShortRead)),
            },
            Job::Select { rom, index } => match response {
                Response::Bits(_) => if index >= 8 {
                    JobStep::Finish(Ok(Outcome::Selected))
                } else {
                    JobStep::Issue(
                        Job::Select { rom, index: index + 1 },
                        write_primitive(selection_byte(&rom, index + 1)),
                    )
                },
                _ => JobStep::Finish(Err(OneWireError::ShortRead)),
            },
            Job::Temperature { rom, index, scratchpad } => advance_temperature(
                rom,
                index,
                scratchpad,
                response,
            ),
            Job::Search { state, round, phase } => advance_search(state, round, phase, response),
        }
    }
}

/// A bus on which no device answers is an outcome, not a failure: a reset
/// reports it as absence, and an operation that needs a device ends with
/// `DeviceNotPresent`, which is no transport error.
pub proof fn lemma_absence_is_no_transport_error(rom: Seq<u8>, index: u8, scratchpad: Seq<u8>)
    requires
        index == 0 || index == 12,
    ensures
        job_advance(JobView::Reset, Ok(ResponseView::Presence(false))) == JobStepView::Finish(
            Ok(OutcomeView::Presence(false)),
        ),
        job_advance(
            JobView::Temperature { rom, index, scratchpad },
            Ok(ResponseView::Presence(false)),
        ) matches JobStepView::Finish(Err(OneWireError::DeviceNotPresent(check)))
            && !OneWireError::DeviceNotPresent(check).transport() && (check
            == PresenceCheck::BeforeConversion <==> index == 0),
{
}

/// A temperature read walks its sequence in order: as long as each
/// primitive ends well and each reset finds a device, primitive `index` is
/// followed by primitive `index + 1` and by nothing else.
pub proof fn lemma_temperature_steps_in_order(
    rom: Seq<u8>,
    index: u8,
    scratchpad: Seq<u8>,
    response: ResponseView,
)
    requires
        index < LAST_TEMPERATURE_STEP,
        temperature_answered(index as int, response),
        response != ResponseView::Presence(false),
    ensures
        job_advance(JobView::Temperature { rom, index, scratchpad }, Ok(response))
            matches JobStepView::Issue(JobView::Temperature { rom: same, index: next, .. }, primitive)
            && same == rom && next == index + 1 && primitive == temperature_primitive(
            rom,
            index + 1,
        ),
{
}

/// A temperature read delivers a temperature only from the last primitive
/// and only from a scratchpad whose CRC-8 checks; the value is then the
/// register in the scratchpad's first two bytes.
pub proof fn lemma_temperature_only_from_checked_scratchpad(
    rom: Seq<u8>,
    index: u8,
    scratchpad: Seq<u8>,
    result: Result<ResponseView, OneWireError>,
)
    requires
        index <= LAST_TEMPERATURE_STEP,
        job_advance(JobView::Temperature { rom, index, scratchpad }, result)
            matches JobStepView::Finish(Ok(_)),
    ensures
        index == LAST_TEMPERATURE_STEP,
        result matches Ok(ResponseView::Bits(bits)) && ({
            let filled = scratchpad.update(8, bits_byte(bits));
            &&& crc8(filled) == 0
            &&& job_advance(JobView::Temperature { rom, index, scratchpad }, result)
                == JobStepView::Finish(
                Ok(
                    OutcomeView::Temperature(
                        Temperature { raw: register_value(filled[0], filled[1]) as i16 },
                    ),
                ),
            )
        }),
{
}

/// A failed primitive ends every operation with that same failure.
pub proof fn lemma_failure_ends_the_operation(job: JobView, fault: OneWireError)
    ensures
        job_advance(job, Err(fault)) == JobStepView::Finish(Err(fault)),
{
}

} // verus!
