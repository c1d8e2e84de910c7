//! The hardware encoder's bookkeeping.
//!
//! Async MFTs will not accept input until they have asked for it, and
//! calling `ProcessInput` without a preceding `METransformNeedInput` deadlocks
//! rather than erroring. [`InputDemand`] counts the requests the encoder has
//! made and refuses a submission none was made for; [`InputDemand::on_event`]
//! says what each event from the encoder's queue calls for.

use vstd::prelude::*;

verus! {

/// 100-nanosecond units - Media Foundation's time base throughout.
pub type Hns = i64;

/// One encoded frame, as the encoder hands it out.
pub struct EncodedFrame {
    pub data: Vec<u8>,
    pub timestamp: Hns,
    pub keyframe: bool,
}

/// MF packs paired values (width/height, numerator/denominator) into one
/// u64: the first in the high 32 bits, the second in the low 32.
pub open spec fn spec_pack_ratio(high: u32, low: u32) -> nat {
    high as nat * 0x1_0000_0000 + low as nat
}

pub fn pack_ratio(high: u32, low: u32) -> (packed: u64)
    ensures
        packed == spec_pack_ratio(high, low),
{
    let packed = ((high as u64) << 32) | low as u64;
    assert(((high as u64) << 32) | low as u64 == high as nat * 0x1_0000_0000 + low as nat)
        by (bit_vector);
    packed
}

/// Law: packing loses nothing - the high half gives back the first value and
/// the low half the second.
pub proof fn law_ratio_roundtrip(high: u32, low: u32)
    ensures
        spec_pack_ratio(high, low) / 0x1_0000_0000 == high,
        spec_pack_ratio(high, low) % 0x1_0000_0000 == low,
        spec_pack_ratio(high, low) <= u64::MAX,
{
    let h = high as int;
    let l = low as int;
    assert((h * 0x1_0000_0000 + l) / 0x1_0000_0000 == h) by (nonlinear_arith)
        requires
            0 <= l < 0x1_0000_0000,
            0 <= h,
    ;
    assert((h * 0x1_0000_0000 + l) % 0x1_0000_0000 == l) by (nonlinear_arith)
        requires
            0 <= l < 0x1_0000_0000,
            0 <= h,
    ;
}

/// The events the encoder's queue raises, as far as the pipeline cares.
#[derive(Clone, Copy, Debug, PartialEq, Eq, Structural)]
pub enum EncoderEvent {
    NeedInput,
    HaveOutput,
    DrainComplete,
    Other,
}

/// What handling one event calls for.
#[derive(Clone, Copy, Debug, PartialEq, Eq, Structural)]
pub enum PollAction {
    /// Go on pumping the queue.
    Continue,
    /// Fetch the finished frame with `ProcessOutput`, then go on.
    TakeOutput,
    /// The drain is complete: stop pumping.
    Stop,
}

/// Why a submission was refused.
#[derive(Clone, Copy, Debug, PartialEq, Eq, Structural)]
pub enum SubmitError {
    /// `submit()` called before the encoder asked for input.
    NotRequested,
}

/// The input requests an async encoder has made and not yet had answered.
pub struct InputDemand {
    pending_input_requests: u32,
}

impl View for InputDemand {
    type V = nat;

    closed spec fn view(&self) -> nat {
        self.pending_input_requests as nat
    }
}

impl InputDemand {
    pub fn new() -> (d: InputDemand)
        ensures
            d@ == 0,
    {
        InputDemand { pending_input_requests: 0 }
    }

    /// Requests not yet answered.
    pub fn pending(&self) -> (n: u32)
        ensures
            n == self@,
    {
        self.pending_input_requests
    }

    /// Account for one event from the encoder's queue. A request for input
    /// is counted; finished output is to be fetched; a completed drain ends
    /// the pumping; anything else is ignored.
    pub fn on_event(&mut self, event: EncoderEvent) -> (action: PollAction)
        requires
            event == EncoderEvent::NeedInput ==> old(self)@ < u32::MAX,
        ensures
            final(self)@ == demand_step(old(self)@, DemandOp::Event(event)),
            action == match event {
                EncoderEvent::HaveOutput => PollAction::TakeOutput,
                EncoderEvent::DrainComplete => PollAction::Stop,
                _ => PollAction::Continue,
            },
    {
        match event {
            EncoderEvent::NeedInput => {
                self.pending_input_requests += 1;
                PollAction::Continue
            },
            EncoderEvent::HaveOutput => PollAction::TakeOutput,
            EncoderEvent::DrainComplete => PollAction::Stop,
            EncoderEvent::Other => PollAction::Continue,
        }
    }

    /// True when the encoder has asked for a frame. Submitting without this
    /// being true is the deadlock.
    pub fn wants_input(&self) -> (r: bool)
        ensures
            r == (self@ > 0),
    {
        self.pending_input_requests > 0
    }

    /// May a frame be handed to the encoder now?
    pub fn check_submit(&self) -> (r: Result<(), SubmitError>)
        ensures
            r is Ok <==> self@ > 0,
            r is Err ==> r == Err::<(), SubmitError>(SubmitError::NotRequested),
    {
        if self.pending_input_requests == 0 {
            return Err(SubmitError::NotRequested);
        }
        Ok(())
    }

    /// The encoder accepted a frame: one request is answered.
    pub fn submitted(&mut self)
        requires
            old(self)@ > 0,
        ensures
            final(self)@ == old(self)@ - 1,
            final(self)@ == demand_step(old(self)@, DemandOp::Submit),
    {
        self.pending_input_requests -= 1;
    }
}


/// One thing that happens to an encoder's input bookkeeping: an event taken
/// from its queue, or an attempt to submit a frame.
pub enum DemandOp {
    Event(EncoderEvent),
    Submit,
}

/// The requests still open after `ops`, starting from none: each request for
/// input opens one, and each submission made while one is open answers it; a
/// submission with none open is refused.
pub open spec fn pending_after(ops: Seq<DemandOp>) -> nat
    decreases ops.len(),
{
    if ops.len() == 0 {
        0
    } else {
        demand_step(pending_after(ops.drop_last()), ops.last())
    }
}

/// The open requests after one more operation, with `p` open before it.
pub open spec fn demand_step(p: nat, op: DemandOp) -> nat {
    match op {
        DemandOp::Event(EncoderEvent::NeedInput) => p + 1,
        DemandOp::Event(_) => p,
        DemandOp::Submit => if p > 0 {
            (p - 1) as nat
        } else {
            p
        },
    }
}

/// How many requests for input `ops` holds.
pub open spec fn requests_in(ops: Seq<DemandOp>) -> nat
    decreases ops.len(),
{
    if ops.len() == 0 {
        0
    } else {
        requests_in(ops.drop_last()) + match ops.last() {
            DemandOp::Event(EncoderEvent::NeedInput) => 1nat,
            _ => 0nat,
        }
    }
}

/// How many submissions in `ops` were accepted.
pub open spec fn accepted_in(ops: Seq<DemandOp>) -> nat
    decreases ops.len(),
{
    if ops.len() == 0 {
        0
    } else {
        accepted_in(ops.drop_last()) + match ops.last() {
            DemandOp::Submit => if pending_after(ops.drop_last()) > 0 {
                1nat
            } else {
                0nat
            },
            _ => 0nat,
        }
    }
}

/// Law: the encoder is never fed more frames than it asked for. After any
/// run of events and submissions from a new [`InputDemand`], the accepted
/// submissions never exceed the requests, the open requests are exactly the
/// difference, and input is wanted exactly when some request is unanswered.
pub proof fn law_inputs_follow_requests(ops: Seq<DemandOp>)
    ensures
        accepted_in(ops) <= requests_in(ops),
        pending_after(ops) == requests_in(ops) - accepted_in(ops),
        (pending_after(ops) > 0) == (requests_in(ops) > accepted_in(ops)),
    decreases ops.len(),
{
    if ops.len() > 0 {
        law_inputs_follow_requests(ops.drop_last());
    }
}

} // verus!
