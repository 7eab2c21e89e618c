//! The two bus primitives, each as a machine over serial-port actions: the
//! reset pulse with presence detection, and the exchange of bit slots in bursts.

use vstd::prelude::*;
use crate::bits::{decode_bits, encode_bits, sampled_bits, wire_bytes};
use crate::transport::{
    data_fault, done_fault, expect_data, expect_done, Action, ActionView, OneWireError, Reply,
    ReplyView, DATA_BAUD, RESET_BAUD, RESET_FRAME, RESET_SETTLE_MS,
};

verus! {

/// Where a bus reset stands: the action that is out and awaits its reply.
#[derive(Clone, Copy, PartialEq, Eq, Structural, Debug)]
pub enum ResetStage {
    /// Pending input and output are being discarded.
    Clearing,
    /// The port is being slowed to the reset rate.
    Lowering,
    /// The framing byte is being written.
    Pulsing,
    /// The line is left to settle.
    Settling,
    /// The echo of the framing byte is being read.
    Sampling,
    /// The port is being put back to the data rate.
    Restoring,
}

/// A bus reset in progress.
#[derive(Debug, PartialEq, Eq)]
pub struct ResetOp {
    /// The action that is out.
    pub stage: ResetStage,
    /// What the reset will report once the data rate is restored.
    pub verdict: Result<bool, OneWireError>,
}

/// What a reset asks for next, or how it ended.
pub enum ResetStep {
    /// Perform the action, then feed its reply to the machine.
    Perform(ResetOp, Action),
    /// The reset is over: whether a device answered, or why that is unknown.
    Complete(Result<bool, OneWireError>),
}

/// The action that is out at each stage of a reset.
pub open spec fn reset_action(stage: ResetStage) -> ActionView {
    match stage {
        ResetStage::Clearing => ActionView::ClearBuffers,
        ResetStage::Lowering => ActionView::SetBaudRate(RESET_BAUD),
        ResetStage::Pulsing => ActionView::Write(seq![RESET_FRAME]),
        ResetStage::Settling => ActionView::Sleep(RESET_SETTLE_MS),
        ResetStage::Sampling => ActionView::ReadExact(1),
        ResetStage::Restoring => ActionView::SetBaudRate(DATA_BAUD),
    }
}

/// A device answered the reset pulse: the echo is neither the framing byte
/// as sent nor a line held low throughout.
pub open spec fn presence_detected(echo: u8) -> bool {
    echo != RESET_FRAME && echo != 0x00
}

/// The error, if any, that `reply` stands for at `stage`.
pub open spec fn reset_fault(stage: ResetStage, reply: ReplyView) -> Option<OneWireError> {
    if stage is Sampling {
        data_fault(reply, 1)
    } else {
        done_fault(reply)
    }
}

/// The reset after `reply` has answered the action that was out, or `None`
/// where the reset is over. Once the baud rate may have been changed, every
/// path leads through `Restoring`.
pub open spec fn reset_next(op: ResetOp, reply: ReplyView) -> Option<ResetOp> {
    match reset_fault(op.stage, reply) {
        None => match op.stage {
            ResetStage::Clearing => Some(ResetOp { stage: ResetStage::Lowering, verdict: op.verdict }),
            ResetStage::Lowering => Some(ResetOp { stage: ResetStage::Pulsing, verdict: op.verdict }),
            ResetStage::Pulsing => Some(ResetOp { stage: ResetStage::Settling, verdict: op.verdict }),
            ResetStage::Settling => Some(ResetOp { stage: ResetStage::Sampling, verdict: op.verdict }),
            ResetStage::Sampling => Some(
                ResetOp {
                    stage: ResetStage::Restoring,
                    verdict: Ok(presence_detected(reply->Data_0[0])),
                },
            ),
            ResetStage::Restoring => None,
        },
        Some(fault) => match op.stage {
            ResetStage::Clearing => None,
            ResetStage::Restoring => None,
            _ => Some(ResetOp { stage: ResetStage::Restoring, verdict: Err(fault) }),
        },
    }
}

/// What a reset that ends on `reply` reports: the first failure, else the
/// presence that was sampled.
pub open spec fn reset_result(op: ResetOp, reply: ReplyView) -> Result<bool, OneWireError> {
    match reset_fault(op.stage, reply) {
        None => op.verdict,
        Some(fault) => if op.stage is Restoring && op.verdict is Err {
            op.verdict
        } else {
            Err(fault)
        },
    }
}

fn reset_stage_action(stage: ResetStage) -> (action: Action)
    ensures
        action@ == reset_action(stage),
{
    match stage {
        ResetStage::Clearing => Action::ClearBuffers,
        ResetStage::Lowering => Action::SetBaudRate(RESET_BAUD),
        ResetStage::Pulsing => {
            let mut frame: Vec<u8> = Vec::new();
            frame.push(RESET_FRAME);
            assert(frame@ =~= seq![RESET_FRAME]);
            Action::Write(frame)
        },
        ResetStage::Settling => Action::Sleep(RESET_SETTLE_MS),
        ResetStage::Sampling => Action::ReadExact(1),
        ResetStage::Restoring => Action::SetBaudRate(DATA_BAUD),
    }
}

impl ResetOp {
    /// Starts a reset: the first action is to clear the port's buffers.
    pub fn begin() -> (start: (ResetOp, Action))
        ensures
            start.0.stage == ResetStage::Clearing,
            start.0.verdict == Ok::<bool, OneWireError>(false),
            start.1@ == reset_action(ResetStage::Clearing),
    {
        (ResetOp { stage: ResetStage::Clearing, verdict: Ok(false) }, Action::ClearBuffers)
    }

    /// Takes the reply to the action that was out and says what comes next.
    pub fn feed(self, reply: Reply) -> (step: ResetStep)
        ensures
            match step {
                ResetStep::Perform(next, action) => reset_next(self, reply@) == Some(next)
                    && action@ == reset_action(next.stage),
                ResetStep::Complete(result) => reset_next(self, reply@) is None && result
                    == reset_result(self, reply@),
            },
    {
        let stage = self.stage;
        let verdict = self.verdict;
        let outcome: Result<u8, OneWireError> = match stage {
            ResetStage::Sampling => match expect_data(reply, 1) {
                Ok(bytes) => Ok(bytes[0]),
                Err(fault) => Err(fault),
            },
            _ => match expect_done(reply) {
                Ok(()) => Ok(0),
                Err(fault) => Err(fault),
            },
        };
        match outcome {
            Ok(echo) => {
                let next = match stage {
                    ResetStage::Clearing => ResetOp { stage: ResetStage::Lowering, verdict },
                    ResetStage::Lowering => ResetOp { stage: ResetStage::Pulsing, verdict },
                    ResetStage::Pulsing => ResetOp { stage: ResetStage::Settling, verdict },
                    ResetStage::Settling => ResetOp { stage: ResetStage::Sampling, verdict },
                    ResetStage::Sampling => ResetOp {
                        stage: ResetStage::Restoring,
                        verdict: Ok(echo != RESET_FRAME && echo != 0x00),
                    },
                    ResetStage::Restoring => {
                        return ResetStep::Complete(verdict);
                    },
                };
                let action = reset_stage_action(next.stage);
                ResetStep::Perform(next, action)
            },
            Err(fault) => match stage {
                ResetStage::Clearing => ResetStep::Complete(Err(fault)),
                ResetStage::Restoring => match verdict {
                    Ok(_) => ResetStep::Complete(Err(fault)),
                    Err(first) => ResetStep::Complete(Err(first)),
                },
                _ => {
                    let next = ResetOp { stage: ResetStage::Restoring, verdict: Err(fault) };
                    ResetStep::Perform(next, Action::SetBaudRate(DATA_BAUD))
                },
            },
        }
    }
}

/// A reset ends only where the baud rate was never touched or has just been
/// commanded back to the data rate.
pub proof fn lemma_reset_ends_at_data_rate(op: ResetOp, reply: ReplyView)
    requires
        reset_next(op, reply) is None,
    ensures
        op.stage is Clearing || (op.stage is Restoring && reset_action(op.stage)
            == ActionView::SetBaudRate(DATA_BAUD)),
{
}

/// With every action succeeding, a reset runs its six actions in order and
/// reports presence exactly when the echo is neither the framing byte nor zero.
pub proof fn lemma_reset_undisturbed(start: ResetOp, echo: u8)
    requires
        start.stage is Clearing,
    ensures
        ({
            let lowering = reset_next(start, ReplyView::Done);
            let pulsing = reset_next(lowering.unwrap(), ReplyView::Done);
            let settling = reset_next(pulsing.unwrap(), ReplyView::Done);
            let sampling = reset_next(settling.unwrap(), ReplyView::Done);
            let restoring = reset_next(sampling.unwrap(), ReplyView::Data(seq![echo]));
            &&& lowering.unwrap().stage is Lowering
            &&& pulsing.unwrap().stage is Pulsing
            &&& settling.unwrap().stage is Settling
            &&& sampling.unwrap().stage is Sampling
            &&& restoring.unwrap().stage is Restoring
            &&& reset_next(restoring.unwrap(), ReplyView::Done) is None
            &&& reset_result(restoring.unwrap(), ReplyView::Done) == Ok::<bool, OneWireError>(
                presence_detected(echo),
            )
        }),
{
}

/// An exchange of bit slots in progress.
#[derive(Debug, PartialEq, Eq)]
pub struct TouchOp {
    /// The logical bits to drive, one per slot.
    pub bits: Vec<u8>,
    /// The most slots that go out in one burst.
    pub chunk: usize,
    /// How many slots have been driven and read back.
    pub done: usize,
    /// The bus level sampled in each of those slots.
    pub echoed: Vec<u8>,
    /// The current burst has been written and its echoes are awaited.
    pub reading: bool,
}

/// A `TouchOp` with its sequences as mathematical values.
pub struct TouchView {
    pub bits: Seq<u8>,
    pub chunk: usize,
    pub done: usize,
    pub echoed: Seq<u8>,
    pub reading: bool,
}

impl View for TouchOp {
    type V = TouchView;

    open spec fn view(&self) -> TouchView {
        TouchView {
            bits: self.bits@,
            chunk: self.chunk,
            done: self.done,
            echoed: self.echoed@,
            reading: self.reading,
        }
    }
}

/// What an exchange asks for next, or how it ended.
pub enum TouchStep {
    /// Perform the action, then feed its reply to the machine.
    Perform(TouchOp, Action),
    /// The exchange is over: the level sampled in every slot, or the failure.
    Complete(Result<Vec<u8>, OneWireError>),
}

impl TouchView {
    /// Slots remain, bursts are not empty, and one level was sampled per slot done.
    pub open spec fn wf(self) -> bool {
        &&& self.chunk >= 1
        &&& self.done < self.bits.len() <= usize::MAX
        &&& self.echoed.len() == self.done
    }

    /// The number of slots in the current burst.
    pub open spec fn burst(self) -> usize {
        if self.bits.len() - self.done < self.chunk {
            (self.bits.len() - self.done) as usize
        } else {
            self.chunk
        }
    }

    /// The action that is out: the current burst's bytes, then the read of
    /// as many echoes.
    pub open spec fn action(self) -> ActionView {
        if self.reading {
            ActionView::ReadExact(self.burst())
        } else {
            ActionView::Write(
                wire_bytes(self.bits.subrange(self.done as int, self.done + self.burst())),
            )
        }
    }

    /// The error, if any, that `reply` stands for.
    pub open spec fn fault(self, reply: ReplyView) -> Option<OneWireError> {
        if self.reading {
            data_fault(reply, self.burst())
        } else {
            done_fault(reply)
        }
    }

    /// The exchange after `reply` has answered the action that was out, or
    /// `None` where the exchange is over.
    pub open spec fn next(self, reply: ReplyView) -> Option<TouchView> {
        if self.fault(reply) is Some {
            None
        } else if !self.reading {
            Some(TouchView { reading: true, ..self })
        } else if self.done + self.burst() == self.bits.len() {
            None
        } else {
            Some(
                TouchView {
                    done: (self.done + self.burst()) as usize,
                    echoed: self.echoed + sampled_bits(reply->Data_0),
                    reading: false,
                    ..self
                },
            )
        }
    }

    /// What an exchange that ends on `reply` reports.
    pub open spec fn result(self, reply: ReplyView) -> Result<Seq<u8>, OneWireError> {
        match self.fault(reply) {
            Some(fault) => Err(fault),
            None => Ok(self.echoed + sampled_bits(reply->Data_0)),
        }
    }
}

/// An exchange of `bits` in bursts of at most `chunk`, before its first action.
pub open spec fn touch_start(bits: Seq<u8>, chunk: usize) -> TouchView {
    TouchView { bits, chunk, done: 0, echoed: Seq::empty(), reading: false }
}

impl TouchOp {
    fn burst_len(&self) -> (len: usize)
        requires
            self@.wf(),
        ensures
            len == self@.burst(),
            1 <= len,
            self.done + len <= self.bits.len(),
    {
        let left = self.bits.len() - self.done;
        if left < self.chunk {
            left
        } else {
            self.chunk
        }
    }

    fn write_burst(self) -> (step: TouchStep)
        requires
            self@.wf(),
            !self.reading,
        ensures
            step matches TouchStep::Perform(op, action) && op@ == self@ && action@
                == self@.action(),
    {
        let len = self.burst_len();
        let wire = encode_bits(self.bits.as_slice(), self.done, self.done + len);
        TouchStep::Perform(self, Action::Write(wire))
    }

    /// Starts an exchange of `bits` in bursts of at most `chunk` slots. With
    /// no bits to exchange it is over at once, without any action.
    pub fn begin(bits: Vec<u8>, chunk: usize) -> (step: TouchStep)
        requires
            chunk >= 1,
        ensures
            match step {
                TouchStep::Perform(op, action) => bits@.len() > 0 && op@ == touch_start(
                    bits@,
                    chunk,
                ) && op@.wf() && action@ == op@.action(),
                TouchStep::Complete(Ok(echoed)) => bits@.len() == 0 && echoed@.len() == 0,
                TouchStep::Complete(Err(_)) => false,
            },
    {
        if bits.len() == 0 {
            TouchStep::Complete(Ok(Vec::new()))
        } else {
            let op = TouchOp { bits, chunk, done: 0, echoed: Vec::new(), reading: false };
            op.write_burst()
        }
    }

    /// Takes the reply to the action that was out and says what comes next.
    pub fn feed(self, reply: Reply) -> (step: TouchStep)
        requires
            self@.wf(),
        ensures
            match step {
                TouchStep::Perform(op, action) => self@.next(reply@) == Some(op@) && op@.wf()
                    && action@ == op@.action(),
                TouchStep::Complete(Ok(echoed)) => self@.next(reply@) is None && self@.result(
                    reply@,
                ) == Ok::<Seq<u8>, OneWireError>(echoed@) && echoed@.len() == self.bits@.len(),
                TouchStep::Complete(Err(fault)) => self@.next(reply@) is None && self@.result(
                    reply@,
                ) == Err::<Seq<u8>, OneWireError>(fault) && fault.transport(),
            },
    {
        let len = self.burst_len();
        if !self.reading {
            match expect_done(reply) {
                Ok(()) => {
                    let op = TouchOp { reading: true, ..self };
                    TouchStep::Perform(op, Action::ReadExact(len))
                },
                Err(fault) => TouchStep::Complete(Err(fault)),
            }
        } else {
            match expect_data(reply, len) {
                Ok(echoes) => {
                    let mut echoed = self.echoed;
                    decode_bits(echoes.as_slice(), &mut echoed);
                    let done = self.done + len;
                    if done == self.bits.len() {
                        TouchStep::Complete(Ok(echoed))
                    } else {
                        let op = TouchOp {
                            bits: self.bits,
                            chunk: self.chunk,
                            done,
                            echoed,
                            reading: false,
                        };
                        op.write_burst()
                    }
                },
                Err(fault) => TouchStep::Complete(Err(fault)),
            }
        }
    }
}

/// The levels that an undisturbed exchange reports when the slots still to
/// go are echoed by `echoes`, one byte per slot, however the bursts fall.
pub open spec fn touch_run(op: TouchView, echoes: Seq<u8>) -> Seq<u8>
    decreases op.bits.len() - op.done, (if op.reading { 0int } else { 1int }),
{
    if !op.wf() || echoes.len() != op.bits.len() - op.done {
        op.echoed
    } else if !op.reading {
        touch_run(op.next(ReplyView::Done).unwrap(), echoes)
    } else {
        let reply = ReplyView::Data(echoes.take(op.burst() as int));
        match op.next(reply) {
            Some(next) => touch_run(next, echoes.skip(op.burst() as int)),
            None => op.result(reply).unwrap(),
        }
    }
}

/// Bursts are invisible: whatever the burst size, an undisturbed exchange
/// reports the level sampled in each echoed byte, in slot order.
pub proof fn lemma_touch_run(op: TouchView, echoes: Seq<u8>)
    requires
        op.wf(),
        echoes.len() == op.bits.len() - op.done,
    ensures
        touch_run(op, echoes) == op.echoed + sampled_bits(echoes),
    decreases op.bits.len() - op.done, (if op.reading { 0int } else { 1int }),
{
    if !op.reading {
        lemma_touch_run(op.next(ReplyView::Done).unwrap(), echoes);
    } else {
        let burst = op.burst() as int;
        let reply = ReplyView::Data(echoes.take(burst));
        match op.next(reply) {
            Some(next) => {
                lemma_touch_run(next, echoes.skip(burst));
                assert(op.echoed + sampled_bits(echoes) =~= next.echoed + sampled_bits(
                    echoes.skip(burst),
                ));
            },
            None => {
                assert(echoes.take(burst) =~= echoes);
            },
        }
    }
}

/// Two exchanges of the same bits against the same echoes report the same
/// levels, whatever their burst sizes.
pub proof fn lemma_chunk_transparency(bits: Seq<u8>, first: usize, second: usize, echoes: Seq<u8>)
    requires
        first >= 1,
        second >= 1,
        0 < bits.len() <= usize::MAX,
        echoes.len() == bits.len(),
    ensures
        touch_run(touch_start(bits, first), echoes) == touch_run(
            touch_start(bits, second),
            echoes,
        ),
        touch_run(touch_start(bits, first), echoes) == sampled_bits(echoes),
{
    lemma_touch_run(touch_start(bits, first), echoes);
    lemma_touch_run(touch_start(bits, second), echoes);
    assert(Seq::<u8>::empty() + sampled_bits(echoes) =~= sampled_bits(echoes));
}

} // verus!
