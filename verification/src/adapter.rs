//! The adapter driver: a machine that turns each bus operation into the
//! serial-port actions its caller must perform, one at a time, and the
//! replies to them into the operation's result.

use vstd::prelude::*;
use vstd::slice::slice_to_vec;
use crate::bits::{bits_byte, byte_bits, sampled_bits, wire_bytes};
use crate::link::{
    presence_detected, reset_action, reset_next, reset_result, touch_start, ResetOp, ResetStage,
    ResetStep, TouchOp, TouchStep, TouchView,
};
use crate::protocol::{
    job_advance, outcome_view, read_primitive, read_slots, write_primitive, Job, JobStep,
    JobStepView, JobView, Outcome, OutcomeView, Primitive, PrimitiveView, Response, ResponseView,
    SearchPhase, MATCH_ROM,
};
use crate::search::{DiscoveryState, DiscoveryView, RoundView, SearchRound};
use crate::transport::{
    done_fault, expect_done, Action, ActionView, OneWireError, Reply, ReplyView, DATA_BAUD,
    RESET_BAUD, RESET_FRAME, RESET_SETTLE_MS, UART_FIFO_SIZE,
};

verus! {

/// The primitive in progress, between two serial-port actions.
#[derive(Debug, PartialEq, Eq)]
pub enum Link {
    /// No primitive is in progress.
    Idle,
    /// A reset.
    Reset(ResetOp),
    /// An exchange of bit slots.
    Touch(TouchOp),
    /// A delay of this many milliseconds.
    Delay(u64),
}

/// A `Link` with its sequences as mathematical values.
pub enum LinkView {
    Idle,
    Reset(ResetOp),
    Touch(TouchView),
    Delay(u64),
}

impl View for Link {
    type V = LinkView;

    open spec fn view(&self) -> LinkView {
        match *self {
            Link::Idle => LinkView::Idle,
            Link::Reset(op) => LinkView::Reset(op),
            Link::Touch(op) => LinkView::Touch(op@),
            Link::Delay(millis) => LinkView::Delay(millis),
        }
    }
}

impl LinkView {
    /// The primitive as it stands before its first action.
    pub open spec fn start(primitive: PrimitiveView, chunk: usize) -> LinkView {
        match primitive {
            PrimitiveView::Reset => LinkView::Reset(
                ResetOp { stage: ResetStage::Clearing, verdict: Ok(false) },
            ),
            PrimitiveView::Touch(bits) => LinkView::Touch(touch_start(bits, chunk)),
            PrimitiveView::Delay(millis) => LinkView::Delay(millis),
        }
    }

    /// The serial-port action that is out.
    pub open spec fn action(self) -> ActionView {
        match self {
            LinkView::Idle => ActionView::Sleep(0),
            LinkView::Reset(op) => reset_action(op.stage),
            LinkView::Touch(op) => op.action(),
            LinkView::Delay(millis) => ActionView::Sleep(millis),
        }
    }

    /// The primitive after `reply`, or `None` where `reply` ends it.
    pub open spec fn next(self, reply: ReplyView) -> Option<LinkView> {
        match self {
            LinkView::Idle => None,
            LinkView::Reset(op) => match reset_next(op, reply) {
                Some(next) => Some(LinkView::Reset(next)),
                None => None,
            },
            LinkView::Touch(op) => match op.next(reply) {
                Some(next) => Some(LinkView::Touch(next)),
                None => None,
            },
            LinkView::Delay(_) => None,
        }
    }

    /// How the primitive ends on `reply`.
    pub open spec fn result(self, reply: ReplyView) -> Result<ResponseView, OneWireError> {
        match self {
            LinkView::Idle => Err(OneWireError::ShortRead),
            LinkView::Reset(op) => match reset_result(op, reply) {
                Ok(present) => Ok(ResponseView::Presence(present)),
                Err(fault) => Err(fault),
            },
            LinkView::Touch(op) => match op.result(reply) {
                Ok(bits) => Ok(ResponseView::Bits(bits)),
                Err(fault) => Err(fault),
            },
            LinkView::Delay(_) => match done_fault(reply) {
                None => Ok(ResponseView::Elapsed),
                Some(fault) => Err(fault),
            },
        }
    }

    /// An exchange in progress is well formed and uses bursts of `chunk`.
    pub open spec fn wf(self, chunk: usize) -> bool {
        self matches LinkView::Touch(op) ==> op.wf() && op.chunk == chunk
    }
}

/// What the adapter wants from its caller.
#[derive(Debug, PartialEq, Eq)]
pub enum Step {
    /// Perform this action on the serial port and resume with its reply.
    Perform(Action),
    /// The operation is over; the adapter is idle again.
    Finished(Result<Outcome, OneWireError>),
}

/// A `Step` with its sequences as mathematical values.
pub enum StepView {
    Perform(ActionView),
    Finished(Result<OutcomeView, OneWireError>),
}

impl View for Step {
    type V = StepView;

    open spec fn view(&self) -> StepView {
        match *self {
            Step::Perform(action) => StepView::Perform(action@),
            Step::Finished(result) => StepView::Finished(outcome_view(result)),
        }
    }
}

/// The driver of a UART 1-Wire adapter. It owns no port: each operation
/// hands out the actions to perform and is resumed with their replies.
#[derive(Debug)]
pub struct OneWireAdapter {
    chunk: usize,
    job: Option<Job>,
    link: Link,
}

/// An adapter as a mathematical value.
pub struct AdapterView {
    /// The most bit slots that go out in one burst.
    pub chunk: usize,
    /// The operation in progress, if any.
    pub job: Option<JobView>,
    /// The primitive in progress.
    pub link: LinkView,
}

impl View for OneWireAdapter {
    type V = AdapterView;

    closed spec fn view(&self) -> AdapterView {
        AdapterView {
            chunk: self.chunk,
            job: match self.job {
                Some(job) => Some(job@),
                None => None,
            },
            link: self.link@,
        }
    }
}

impl AdapterView {
    /// Bursts are not empty; an operation is in progress exactly when a
    /// primitive is; and both are well formed.
    pub open spec fn wf(self) -> bool {
        &&& self.chunk >= 1
        &&& self.job is None <==> self.link is Idle
        &&& self.job matches Some(job) ==> job.wf()
        &&& self.link.wf(self.chunk)
    }

    /// No operation is in progress.
    pub open spec fn idle(self) -> bool {
        self.job is None
    }

    /// The adapter once `job` has issued `primitive`.
    pub open spec fn launched(self, job: JobView, primitive: PrimitiveView) -> AdapterView {
        AdapterView { job: Some(job), link: LinkView::start(primitive, self.chunk), ..self }
    }

    /// The adapter after `reply` has answered the action that was out.
    /// While the primitive in progress goes on, only it moves. When it ends,
    /// the operation takes its result and either issues the next primitive
    /// or ends too, leaving the adapter idle.
    pub open spec fn resumed(self, reply: ReplyView) -> AdapterView {
        match self.job {
            None => self,
            Some(job) => match self.link.next(reply) {
                Some(link) => AdapterView { link, ..self },
                None => match job_advance(job, self.link.result(reply)) {
                    JobStepView::Issue(next, primitive) => self.launched(next, primitive),
                    JobStepView::Finish(_) => AdapterView {
                        job: None,
                        link: LinkView::Idle,
                        ..self
                    },
                },
            },
        }
    }

    /// What the adapter asks of its caller after `reply`: the action that
    /// is then out, or the result of the operation that `reply` ended. A
    /// reply to an idle adapter answers nothing and is a short read.
    pub open spec fn step(self, reply: ReplyView) -> StepView {
        match self.job {
            None => StepView::Finished(Err(OneWireError::ShortRead)),
            Some(job) => match self.link.next(reply) {
                Some(link) => StepView::Perform(link.action()),
                None => match job_advance(job, self.link.result(reply)) {
                    JobStepView::Issue(_, primitive) => StepView::Perform(
                        LinkView::start(primitive, self.chunk).action(),
                    ),
                    JobStepView::Finish(result) => StepView::Finished(result),
                },
            },
        }
    }
}

fn response_of_presence(result: Result<bool, OneWireError>) -> (response: Result<
    Response,
    OneWireError,
>)
    ensures
        response == (match result {
            Ok(present) => Ok::<Response, OneWireError>(Response::Presence(present)),
            Err(fault) => Err::<Response, OneWireError>(fault),
        }),
{
    match result {
        Ok(present) => Ok(Response::Presence(present)),
        Err(fault) => Err(fault),
    }
}

impl OneWireAdapter {
    /// An idle adapter that exchanges bit slots in bursts of `UART_FIFO_SIZE`.
    pub fn new() -> (adapter: OneWireAdapter)
        ensures
            adapter@.wf(),
            adapter@.idle(),
            adapter@.chunk == UART_FIFO_SIZE,
    {
        OneWireAdapter { chunk: UART_FIFO_SIZE, job: None, link: Link::Idle }
    }

    /// An idle adapter that exchanges bit slots in bursts of `chunk`, or
    /// `None` where `chunk` is zero.
    pub fn with_chunk_size(chunk: usize) -> (adapter: Option<OneWireAdapter>)
        ensures
            adapter is Some <==> chunk >= 1,
            adapter matches Some(made) ==> made@.wf() && made@.idle() && made@.chunk == chunk,
    {
        if chunk == 0 {
            None
        } else {
            Some(OneWireAdapter { chunk, job: None, link: Link::Idle })
        }
    }

    /// Tells whether no operation is in progress.
    pub fn is_idle(&self) -> (idle: bool)
        ensures
            idle == self@.idle(),
    {
        self.job.is_none()
    }

    /// The most bit slots that go out in one burst.
    pub fn chunk_size(&self) -> (chunk: usize)
        ensures
            chunk == self@.chunk,
    {
        self.chunk
    }

    fn launch(&mut self, job: Job, primitive: Primitive) -> (step: Step)
        requires
            old(self).chunk >= 1,
            job@.wf(),
            primitive@.wf(),
        ensures
            final(self)@ == old(self)@.launched(job@, primitive@),
            final(self)@.wf(),
            step@ == StepView::Perform(final(self)@.link.action()),
    {
        let (link, action) = match primitive {
            Primitive::Reset => {
                let (op, action) = ResetOp::begin();
                (Link::Reset(op), action)
            },
            Primitive::Touch(bits) => match TouchOp::begin(bits, self.chunk) {
                TouchStep::Perform(op, action) => (Link::Touch(op), action),
                TouchStep::Complete(_) => (Link::Idle, Action::Sleep(0)),
            },
            Primitive::Delay(millis) => (Link::Delay(millis), Action::Sleep(millis)),
        };
        self.job = Some(job);
        self.link = link;
        Step::Perform(action)
    }

    /// Takes the reply to the action that was out and says what comes next:
    /// the next action, or the result of the operation.
    pub fn resume(&mut self, reply: Reply) -> (step: Step)
        requires
            old(self)@.wf(),
        ensures
            final(self)@.wf(),
            final(self)@ == old(self)@.resumed(reply@),
            step@ == old(self)@.step(reply@),
            step is Finished <==> final(self)@.idle(),
    {
        let mut link = Link::Idle;
        core::mem::swap(&mut self.link, &mut link);
        let result: Result<Response, OneWireError> = match link {
            Link::Idle => {
                return Step::Finished(Err(OneWireError::ShortRead));
            },
            Link::Reset(op) => match op.feed(reply) {
                ResetStep::Perform(next, action) => {
                    self.link = Link::Reset(next);
                    return Step::Perform(action);
                },
                ResetStep::Complete(result) => response_of_presence(result),
            },
            Link::Touch(op) => match op.feed(reply) {
                TouchStep::Perform(next, action) => {
                    self.link = Link::Touch(next);
                    return Step::Perform(action);
                },
                TouchStep::Complete(Ok(bits)) => Ok(Response::Bits(bits)),
                TouchStep::Complete(Err(fault)) => Err(fault),
            },
            Link::Delay(_) => match expect_done(reply) {
                Ok(()) => Ok(Response::Elapsed),
                Err(fault) => Err(fault),
            },
        };
        let mut job: Option<Job> = None;
        core::mem::swap(&mut self.job, &mut job);
        match job {
            None => Step::Finished(Err(OneWireError::ShortRead)),
            Some(job) => match job.advance(result) {
                JobStep::Issue(next, primitive) => self.launch(next, primitive),
                JobStep::Finish(result) => Step::Finished(result),
            },
        }
    }

    /// Starts a bus reset. It ends with `Outcome::Presence`: whether a
    /// device answered the reset pulse.
    pub fn reset(&mut self) -> (step: Step)
        requires
            old(self)@.wf(),
            old(self)@.idle(),
        ensures
            final(self)@.wf(),
            final(self)@ == old(self)@.launched(JobView::Reset, PrimitiveView::Reset),
            step@ == StepView::Perform(ActionView::ClearBuffers),
    {
        self.launch(Job::Reset, Primitive::Reset)
    }

    /// Starts an exchange of bit slots: each of `bits` is driven in a slot
    /// of its own and the bus is sampled in it. It ends with `Outcome::Bits`,
    /// the levels sampled. With no bits it is over at once.
    pub fn touch_bits(&mut self, bits: &[u8]) -> (step: Step)
        requires
            old(self)@.wf(),
            old(self)@.idle(),
        ensures
            final(self)@.wf(),
            bits@.len() == 0 ==> final(self)@ == old(self)@ && step@ == StepView::Finished(
                Ok(OutcomeView::Bits(Seq::empty())),
            ),
            bits@.len() > 0 ==> final(self)@ == old(self)@.launched(
                JobView::Touch,
                PrimitiveView::Touch(bits@),
            ) && step@ == StepView::Perform(final(self)@.link.action()),
    {
        if bits.len() == 0 {
            let none: Vec<u8> = Vec::new();
            assert(none@ =~= Seq::<u8>::empty());
            Step::Finished(Ok(Outcome::Bits(none)))
        } else {
            self.launch(Job::Touch, Primitive::Touch(slice_to_vec(bits)))
        }
    }

    /// Starts the write of one byte, least-significant bit first. It ends
    /// with `Outcome::Written`.
    pub fn write_byte(&mut self, byte: u8) -> (step: Step)
        requires
            old(self)@.wf(),
            old(self)@.idle(),
        ensures
            final(self)@.wf(),
            final(self)@ == old(self)@.launched(
                JobView::WriteByte,
                PrimitiveView::Touch(byte_bits(byte)),
            ),
            step@ == StepView::Perform(final(self)@.link.action()),
    {
        self.launch(Job::WriteByte, write_primitive(byte))
    }

    /// Starts the read of one byte: eight read slots, reassembled
    /// least-significant bit first. It ends with `Outcome::Byte`.
    pub fn read_byte(&mut self) -> (step: Step)
        requires
            old(self)@.wf(),
            old(self)@.idle(),
        ensures
            final(self)@.wf(),
            final(self)@ == old(self)@.launched(
                JobView::ReadByte,
                PrimitiveView::Touch(read_slots()),
            ),
            step@ == StepView::Perform(final(self)@.link.action()),
    {
        self.launch(Job::ReadByte, read_primitive())
    }

    /// Starts the selection of the device with code `rom`: the match
    /// command, then the code's eight bytes. It ends with `Outcome::Selected`.
    pub fn select_device(&mut self, rom: &[u8; 8]) -> (step: Step)
        requires
            old(self)@.wf(),
            old(self)@.idle(),
        ensures
            final(self)@.wf(),
            final(self)@ == old(self)@.launched(
                JobView::Select { rom: rom@, index: 0 },
                PrimitiveView::Touch(byte_bits(MATCH_ROM)),
            ),
            step@ == StepView::Perform(final(self)@.link.action()),
    {
        self.launch(Job::Select { rom: *rom, index: 0 }, write_primitive(MATCH_ROM))
    }

    /// Starts a search for the codes of all devices on the bus. It ends
    /// with `Outcome::Sensors`, the codes found in the order found.
    pub fn discover_sensors(&mut self) -> (step: Step)
        requires
            old(self)@.wf(),
            old(self)@.idle(),
        ensures
            final(self)@.wf(),
            final(self)@ == old(self)@.launched(
                JobView::Search {
                    state: DiscoveryView::fresh(),
                    round: RoundView::fresh(),
                    phase: SearchPhase::Resetting,
                },
                PrimitiveView::Reset,
            ),
            step@ == StepView::Perform(ActionView::ClearBuffers),
    {
        self.launch(
            Job::Search {
                state: DiscoveryState::new(),
                round: SearchRound::new(),
                phase: SearchPhase::Resetting,
            },
            Primitive::Reset,
        )
    }

    /// Starts a temperature read from the device with code `rom`. It ends
    /// with `Outcome::Temperature`, or with the failure that cut it short.
    pub fn read_temperature(&mut self, rom: &[u8; 8]) -> (step: Step)
        requires
            old(self)@.wf(),
            old(self)@.idle(),
        ensures
            final(self)@.wf(),
            final(self)@ == old(self)@.launched(
                JobView::Temperature { rom: rom@, index: 0, scratchpad: Seq::new(9, |i: int| 0u8) },
                PrimitiveView::Reset,
            ),
            step@ == StepView::Perform(ActionView::ClearBuffers),
    {
        let scratchpad: [u8; 9] = [0u8, 0, 0, 0, 0, 0, 0, 0, 0];
        assert(scratchpad@ =~= Seq::new(9, |i: int| 0u8));
        self.launch(Job::Temperature { rom: *rom, index: 0, scratchpad }, Primitive::Reset)
    }
}

/// An operation hands control back only where the port is at the data
/// rate: a reset ends only from its first stage, before the rate was
/// touched, or from its last, where the rate was commanded back.
pub proof fn lemma_operation_ends_at_data_rate(adapter: AdapterView, reply: ReplyView)
    requires
        adapter.wf(),
        !adapter.idle(),
        adapter.resumed(reply).idle(),
    ensures
        adapter.link matches LinkView::Reset(op) ==> op.stage is Clearing || (op.stage is Restoring
            && adapter.link.action() == ActionView::SetBaudRate(DATA_BAUD)),
{
}

/// A reset whose actions all succeed asks for its six actions in order and
/// reports presence exactly when the echo of the framing byte is neither
/// that byte nor zero; the adapter is then idle again.
pub proof fn lemma_reset_operation(adapter: AdapterView, echo: u8)
    requires
        adapter.wf(),
        adapter.idle(),
    ensures
        ({
            let clearing = adapter.launched(JobView::Reset, PrimitiveView::Reset);
            let lowering = clearing.resumed(ReplyView::Done);
            let pulsing = lowering.resumed(ReplyView::Done);
            let settling = pulsing.resumed(ReplyView::Done);
            let sampling = settling.resumed(ReplyView::Done);
            let restoring = sampling.resumed(ReplyView::Data(seq![echo]));
            &&& clearing.link.action() == ActionView::ClearBuffers
            &&& clearing.step(ReplyView::Done) == StepView::Perform(
                ActionView::SetBaudRate(RESET_BAUD),
            )
            &&& lowering.step(ReplyView::Done) == StepView::Perform(
                ActionView::Write(seq![RESET_FRAME]),
            )
            &&& pulsing.step(ReplyView::Done) == StepView::Perform(
                ActionView::Sleep(RESET_SETTLE_MS),
            )
            &&& settling.step(ReplyView::Done) == StepView::Perform(ActionView::ReadExact(1))
            &&& sampling.step(ReplyView::Data(seq![echo])) == StepView::Perform(
                ActionView::SetBaudRate(DATA_BAUD),
            )
            &&& restoring.step(ReplyView::Done) == StepView::Finished(
                Ok(OutcomeView::Presence(presence_detected(echo))),
            )
            &&& restoring.resumed(ReplyView::Done).idle()
        }),
{
}

/// With bursts of at least eight slots, a byte is read in one write of
/// eight released slots and one read of their echoes, and is the byte whose
/// bits are the levels sampled, least-significant bit first.
pub proof fn lemma_read_byte_operation(adapter: AdapterView, echoes: Seq<u8>)
    requires
        adapter.wf(),
        adapter.idle(),
        adapter.chunk >= 8,
        echoes.len() == 8,
    ensures
        ({
            let writing = adapter.launched(
                JobView::ReadByte,
                PrimitiveView::Touch(read_slots()),
            );
            let reading = writing.resumed(ReplyView::Done);
            &&& writing.link.action() == ActionView::Write(Seq::new(8, |i: int| 0xFFu8))
            &&& writing.step(ReplyView::Done) == StepView::Perform(ActionView::ReadExact(8))
            &&& reading.step(ReplyView::Data(echoes)) == StepView::Finished(
                Ok(OutcomeView::Byte(bits_byte(sampled_bits(echoes)))),
            )
            &&& reading.resumed(ReplyView::Data(echoes)).idle()
        }),
{
    let slots = read_slots();
    assert(slots.subrange(0, 8) =~= slots);
    assert(wire_bytes(slots) =~= Seq::new(8, |i: int| 0xFFu8));
    assert(Seq::<u8>::empty() + sampled_bits(echoes) =~= sampled_bits(
        echoes,
    ));
}

/// With bursts of at least eight slots, a byte is written in one write of
/// its eight slots, least-significant bit first, and one read of their
/// echoes, whatever these are.
pub proof fn lemma_write_byte_operation(adapter: AdapterView, byte: u8, echoes: Seq<u8>)
    requires
        adapter.wf(),
        adapter.idle(),
        adapter.chunk >= 8,
        echoes.len() == 8,
    ensures
        ({
            let writing = adapter.launched(
                JobView::WriteByte,
                PrimitiveView::Touch(byte_bits(byte)),
            );
            let reading = writing.resumed(ReplyView::Done);
            &&& writing.link.action() == ActionView::Write(
                wire_bytes(byte_bits(byte)),
            )
            &&& writing.step(ReplyView::Done) == StepView::Perform(ActionView::ReadExact(8))
            &&& reading.step(ReplyView::Data(echoes)) == StepView::Finished(
                Ok(OutcomeView::Written),
            )
            &&& reading.resumed(ReplyView::Data(echoes)).idle()
        }),
{
    let slots = byte_bits(byte);
    assert(slots.subrange(0, 8) =~= slots);
}

} // verus!
