//! The frame buffer: inputs and snapshots of the most recent frames.
//!
//! The buffer covers a window of consecutive frames. For every frame of the
//! window and every handle it holds what is known of the input: nothing yet, a
//! prediction, or the confirmed intent. For every frame of the window it may
//! hold the state in which the simulation entered that frame. The window only
//! moves forward, one frame at a time, and what leaves it is gone.

use crate::input::{spec_idle, InputIntent};
use crate::world::{SimulationModel, SimulationState};
use vstd::prelude::*;

verus! {

/// What the buffer knows of one player's input in one frame.
#[derive(Clone, Copy, Debug, PartialEq, Eq, Structural)]
pub enum InputRecord {
    /// Nothing has been recorded.
    Absent,
    /// A placeholder, fabricated because the frame had to be simulated before
    /// the input arrived.
    Predicted(InputIntent),
    /// The input itself. It never changes again.
    Confirmed(InputIntent),
}

/// How a confirmed remote input relates to what had been assumed of it.
#[derive(Clone, Copy, Debug, PartialEq, Eq, Structural)]
pub enum Agreement {
    /// Nothing was predicted, or the prediction was right.
    Matched,
    /// A different input had been predicted: what was simulated with it is
    /// wrong.
    Mismatched,
}

/// Why the buffer refuses a request.
#[derive(Clone, Copy, Debug, PartialEq, Eq, Structural)]
pub enum BufferError {
    /// The frame lies outside the window.
    OutOfWindow,
    /// No player has this handle.
    UnknownHandle,
    /// The frame lies in the window, but no state was stored for it.
    NoSnapshot,
    /// The window has reached the last frame index.
    FrameLimit,
}

impl InputRecord {
    /// The intent that the record holds, predicted or confirmed.
    pub open spec fn intent(self) -> Option<InputIntent> {
        match self {
            InputRecord::Absent => None,
            InputRecord::Predicted(i) => Some(i),
            InputRecord::Confirmed(i) => Some(i),
        }
    }
}

/// The record after `intent` was confirmed: a confirmed record stays as it is,
/// anything else gives way.
pub open spec fn spec_confirm(before: InputRecord, intent: InputIntent) -> InputRecord {
    match before {
        InputRecord::Confirmed(i) => InputRecord::Confirmed(i),
        _ => InputRecord::Confirmed(intent),
    }
}

/// The record after `intent` was assumed: a confirmed record stays as it is.
pub open spec fn spec_assume(before: InputRecord, intent: InputIntent) -> InputRecord {
    match before {
        InputRecord::Confirmed(i) => InputRecord::Confirmed(i),
        _ => InputRecord::Predicted(intent),
    }
}

/// Whether confirming `intent` contradicts the record: only a prediction of a
/// different intent does.
pub open spec fn spec_agreement(before: InputRecord, intent: InputIntent) -> Agreement {
    match before {
        InputRecord::Predicted(p) => if p == intent {
            Agreement::Matched
        } else {
            Agreement::Mismatched
        },
        _ => Agreement::Matched,
    }
}

/// One frame of the ring.
pub struct FrameSlot {
    inputs: Vec<InputRecord>,
    snapshot: Option<SimulationState>,
}

/// A ring of frame slots over a sliding window of frames.
pub struct FrameBuffer {
    slots: Vec<FrameSlot>,
    base: u32,
    players: usize,
}

proof fn lemma_slot_unique(f1: int, f2: int, c: int)
    requires
        c > 0,
        0 <= f1 <= f2 < f1 + c,
        f1 % c == f2 % c,
    ensures
        f1 == f2,
{
    vstd::arithmetic::div_mod::lemma_fundamental_div_mod(f1, c);
    vstd::arithmetic::div_mod::lemma_fundamental_div_mod(f2, c);
    let q1 = f1 / c;
    let q2 = f2 / c;
    assert(f2 - f1 == c * (q2 - q1)) by (nonlinear_arith)
        requires
            f1 == c * q1 + f1 % c,
            f2 == c * q2 + f2 % c,
            f1 % c == f2 % c,
    ;
    assert(q2 - q1 == 0) by (nonlinear_arith)
        requires
            c > 0,
            0 <= c * (q2 - q1) < c,
    ;
}

fn empty_slot(players: usize) -> (slot: FrameSlot)
    ensures
        slot.inputs.len() == players,
        forall|h: int| 0 <= h < players ==> slot.inputs[h] == InputRecord::Absent,
        slot.snapshot is None,
{
    let mut inputs: Vec<InputRecord> = Vec::new();
    let mut h: usize = 0;
    while h < players
        invariant
            h <= players,
            inputs.len() == h,
            forall|j: int| 0 <= j < h ==> inputs[j] == InputRecord::Absent,
        decreases players - h,
    {
        inputs.push(InputRecord::Absent);
        h += 1;
    }
    FrameSlot { inputs, snapshot: None }
}

impl FrameBuffer {
    /// The invariant of the ring: at least one slot, every frame of the window
    /// a valid frame index, every slot with one record per handle.
    pub closed spec fn wf(&self) -> bool {
        &&& 1 <= self.slots.len()
        &&& self.base + self.slots.len() <= 0x1_0000_0000
        &&& forall|k: int|
            0 <= k < self.slots.len() ==> (#[trigger] self.slots[k]).inputs.len() == self.players
    }

    /// The oldest frame of the window.
    pub closed spec fn base(&self) -> nat {
        self.base as nat
    }

    /// The number of frames in the window.
    pub closed spec fn capacity(&self) -> nat {
        self.slots.len() as nat
    }

    /// The number of handles.
    pub closed spec fn players(&self) -> nat {
        self.players as nat
    }

    /// The window: `capacity` frames from `base` on.
    pub open spec fn in_window(&self, frame: nat) -> bool {
        self.base() <= frame < self.base() + self.capacity()
    }

    /// What is known of the input of `handle` in `frame`. Outside the window,
    /// and for a handle that no player has, nothing.
    pub closed spec fn record(&self, frame: nat, handle: nat) -> InputRecord {
        if self.in_window(frame) && handle < self.players {
            self.slots[(frame % self.slots.len() as nat) as int].inputs[handle as int]
        } else {
            InputRecord::Absent
        }
    }

    /// The state stored for the start of `frame`, if there is one. Outside the
    /// window there is none.
    pub closed spec fn stored(&self, frame: nat) -> Option<SimulationModel> {
        if self.in_window(frame) {
            match self.slots[(frame % self.slots.len() as nat) as int].snapshot {
                Some(state) => Some(state@),
                None => None,
            }
        } else {
            None
        }
    }

    /// Whether the input of every handle is confirmed for `frame`.
    pub open spec fn settled(&self, frame: nat) -> bool {
        forall|h: nat| h < self.players() ==> self.record(frame, h) is Confirmed
    }

    /// The repeat-last-input guess for `handle` in `frame`: the intent of the
    /// latest earlier frame of the window that has one, predicted or confirmed,
    /// and the idle intent where there is none.
    pub open spec fn predicted(&self, frame: nat, handle: nat) -> InputIntent
        decreases frame,
    {
        if frame == 0 || frame <= self.base() {
            spec_idle()
        } else {
            match self.record((frame - 1) as nat, handle).intent() {
                Some(intent) => intent,
                None => self.predicted((frame - 1) as nat, handle),
            }
        }
    }

    /// An empty buffer over the `capacity` frames from `first` on. There is
    /// none without a slot, nor when the window would pass the last frame
    /// index.
    pub fn starting_at(first: u32, capacity: u32, players: usize) -> (made: Option<FrameBuffer>)
        ensures
            made is Some <==> capacity >= 1 && first + capacity <= 0x1_0000_0000,
            made matches Some(buffer) ==> {
                &&& buffer.wf()
                &&& buffer.base() == first
                &&& buffer.capacity() == capacity
                &&& buffer.players() == players
                &&& forall|f: nat, h: nat| #[trigger] buffer.record(f, h) == InputRecord::Absent
                &&& forall|f: nat| #[trigger] buffer.stored(f) is None
            },
    {
        if capacity == 0 || (first as u64) + (capacity as u64) > 0x1_0000_0000 {
            return None;
        }
        let mut slots: Vec<FrameSlot> = Vec::new();
        let mut k: u32 = 0;
        while k < capacity
            invariant
                k <= capacity,
                slots.len() == k,
                forall|j: int|
                    0 <= j < k ==> {
                        &&& (#[trigger] slots[j]).inputs.len() == players
                        &&& slots[j].snapshot is None
                        &&& forall|h: int| 0 <= h < players ==> slots[j].inputs[h] == InputRecord::Absent
                    },
            decreases capacity - k,
        {
            slots.push(empty_slot(players));
            k += 1;
        }
        let buffer = FrameBuffer { slots, base: first, players };
        assert forall|f: nat, h: nat| #[trigger] buffer.record(f, h) == InputRecord::Absent by {
            if buffer.in_window(f) && h < players {
                let k = (f % buffer.slots.len() as nat) as int;
                assert(buffer.slots[k].inputs.len() == players);
            }
        }
        assert forall|f: nat| #[trigger] buffer.stored(f) is None by {
            if buffer.in_window(f) {
                let k = (f % buffer.slots.len() as nat) as int;
                assert(buffer.slots[k].snapshot is None);
            }
        }
        Some(buffer)
    }

    /// An empty buffer over the frames `0 .. capacity`. There is none without
    /// a slot.
    pub fn new(capacity: u32, players: usize) -> (made: Option<FrameBuffer>)
        ensures
            made is Some <==> capacity >= 1,
            made matches Some(buffer) ==> {
                &&& buffer.wf()
                &&& buffer.base() == 0
                &&& buffer.capacity() == capacity
                &&& buffer.players() == players
                &&& forall|f: nat, h: nat| #[trigger] buffer.record(f, h) == InputRecord::Absent
                &&& forall|f: nat| #[trigger] buffer.stored(f) is None
            },
    {
        FrameBuffer::starting_at(0, capacity, players)
    }

    /// The oldest frame of the window.
    pub fn first_frame(&self) -> (frame: u32)
        ensures
            frame == self.base(),
    {
        self.base
    }

    /// The number of frames in the window.
    pub fn window_len(&self) -> (len: usize)
        ensures
            len == self.capacity(),
    {
        self.slots.len()
    }

    /// The number of handles.
    pub fn player_count(&self) -> (n: usize)
        ensures
            n == self.players(),
    {
        self.players
    }

    /// Whether `frame` lies in the window.
    pub fn covers(&self, frame: u32) -> (inside: bool)
        requires
            self.wf(),
        ensures
            inside == self.in_window(frame as nat),
    {
        frame >= self.base && (frame as u64) < (self.base as u64) + (self.slots.len() as u64)
    }

    fn slot_of(&self, frame: u32) -> (k: usize)
        requires
            self.wf(),
        ensures
            k == frame as nat % self.slots.len() as nat,
            k < self.slots.len(),
    {
        (frame as usize) % self.slots.len()
    }

    /// What is known of the input of `handle` in `frame`.
    pub fn record_at(&self, frame: u32, handle: usize) -> (record: InputRecord)
        requires
            self.wf(),
        ensures
            record == self.record(frame as nat, handle as nat),
    {
        if self.covers(frame) && handle < self.players {
            let k = self.slot_of(frame);
            self.slots[k].inputs[handle]
        } else {
            InputRecord::Absent
        }
    }

    /// Whether the input of every handle is confirmed for `frame`.
    pub fn is_settled(&self, frame: u32) -> (settled: bool)
        requires
            self.wf(),
        ensures
            settled == self.settled(frame as nat),
    {
        let mut h: usize = 0;
        while h < self.players
            invariant
                self.wf(),
                h <= self.players,
                forall|j: nat| j < h ==> self.record(frame as nat, j) is Confirmed,
            decreases self.players - h,
        {
            match self.record_at(frame, h) {
                InputRecord::Confirmed(_) => {},
                _ => {
                    assert(!(self.record(frame as nat, h as nat) is Confirmed));
                    return false;
                },
            }
            h += 1;
        }
        true
    }

    fn write(&mut self, frame: u32, handle: usize, record: InputRecord)
        requires
            old(self).wf(),
            old(self).in_window(frame as nat),
            handle < old(self).players(),
        ensures
            final(self).wf(),
            final(self).base() == old(self).base(),
            final(self).capacity() == old(self).capacity(),
            final(self).players() == old(self).players(),
            forall|f: nat| #[trigger] final(self).stored(f) == old(self).stored(f),
            forall|f: nat, h: nat| #[trigger]
                final(self).record(f, h) == if f == frame && h == handle {
                    record
                } else {
                    old(self).record(f, h)
                },
    {
        let k = self.slot_of(frame);
        self.slots[k].inputs[handle] = record;
        proof {
            let c = self.slots.len() as int;
            assert forall|f: nat, h: nat| #[trigger]
                self.record(f, h) == if f == frame && h == handle {
                    record
                } else {
                    old(self).record(f, h)
                } by {
                if self.in_window(f) && h < self.players && f % (c as nat) == k && f != frame {
                    if f < frame {
                        lemma_slot_unique(f as int, frame as int, c);
                    } else {
                        lemma_slot_unique(frame as int, f as int, c);
                    }
                }
            }
            assert forall|f: nat| #[trigger] self.stored(f) == old(self).stored(f) by {}
        }
    }

    /// Stores the input of a local player. Local input is authoritative: the
    /// record is confirmed at once. A record that was already confirmed keeps
    /// its first value.
    pub fn record_local(&mut self, frame: u32, handle: usize, intent: InputIntent) -> (done: Result<
        (),
        BufferError,
    >)
        requires
            old(self).wf(),
        ensures
            final(self).wf(),
            final(self).base() == old(self).base(),
            final(self).capacity() == old(self).capacity(),
            final(self).players() == old(self).players(),
            forall|f: nat| #[trigger] final(self).stored(f) == old(self).stored(f),
            done is Ok <==> old(self).in_window(frame as nat) && handle < old(self).players(),
            done == Err::<(), BufferError>(BufferError::OutOfWindow) <==> !old(self).in_window(
                frame as nat,
            ),
            done == Err::<(), BufferError>(BufferError::UnknownHandle) <==> old(self).in_window(
                frame as nat,
            ) && handle >= old(self).players(),
            forall|f: nat, h: nat| #[trigger]
                final(self).record(f, h) == if done is Ok && f == frame && h == handle {
                    spec_confirm(old(self).record(f, h), intent)
                } else {
                    old(self).record(f, h)
                },
    {
        if !self.covers(frame) {
            return Err(BufferError::OutOfWindow);
        }
        if handle >= self.players {
            return Err(BufferError::UnknownHandle);
        }
        match self.record_at(frame, handle) {
            InputRecord::Confirmed(_) => {},
            _ => {
                self.write(frame, handle, InputRecord::Confirmed(intent));
            },
        }
        Ok(())
    }

    /// Stores the input of a remote player as confirmed, and tells whether it
    /// contradicts what had been predicted for that player and frame. A record
    /// that was already confirmed keeps its first value.
    pub fn record_remote(&mut self, frame: u32, handle: usize, intent: InputIntent) -> (done: Result<
        Agreement,
        BufferError,
    >)
        requires
            old(self).wf(),
        ensures
            final(self).wf(),
            final(self).base() == old(self).base(),
            final(self).capacity() == old(self).capacity(),
            final(self).players() == old(self).players(),
            forall|f: nat| #[trigger] final(self).stored(f) == old(self).stored(f),
            done is Ok <==> old(self).in_window(frame as nat) && handle < old(self).players(),
            done is Ok ==> done->Ok_0 == spec_agreement(
                old(self).record(frame as nat, handle as nat),
                intent,
            ),
            done == Err::<Agreement, BufferError>(BufferError::OutOfWindow) <==> !old(
                self,
            ).in_window(frame as nat),
            done == Err::<Agreement, BufferError>(BufferError::UnknownHandle) <==> old(
                self,
            ).in_window(frame as nat) && handle >= old(self).players(),
            forall|f: nat, h: nat| #[trigger]
                final(self).record(f, h) == if done is Ok && f == frame && h == handle {
                    spec_confirm(old(self).record(f, h), intent)
                } else {
                    old(self).record(f, h)
                },
    {
        if !self.covers(frame) {
            return Err(BufferError::OutOfWindow);
        }
        if handle >= self.players {
            return Err(BufferError::UnknownHandle);
        }
        match self.record_at(frame, handle) {
            InputRecord::Confirmed(_) => Ok(Agreement::Matched),
            InputRecord::Predicted(guess) => {
                self.write(frame, handle, InputRecord::Confirmed(intent));
                if guess == intent {
                    Ok(Agreement::Matched)
                } else {
                    Ok(Agreement::Mismatched)
                }
            },
            InputRecord::Absent => {
                self.write(frame, handle, InputRecord::Confirmed(intent));
                Ok(Agreement::Matched)
            },
        }
    }

    proof fn lemma_predicted_no_handle(&self, frame: nat, handle: nat)
        requires
            handle >= self.players(),
        ensures
            self.predicted(frame, handle) == spec_idle(),
        decreases frame,
    {
        if frame == 0 || frame <= self.base() {
        } else {
            self.lemma_predicted_no_handle((frame - 1) as nat, handle);
        }
    }

    proof fn lemma_predicted_beyond(&self, frame: nat, handle: nat)
        requires
            frame >= self.base() + self.capacity(),
        ensures
            self.predicted(frame, handle) == self.predicted(self.base() + self.capacity(), handle),
        decreases frame,
    {
        if frame > self.base() + self.capacity() {
            self.lemma_predicted_beyond((frame - 1) as nat, handle);
        }
    }

    /// The repeat-last-input guess for `handle` in `frame`. The buffer is not
    /// changed.
    pub fn predict(&self, frame: u32, handle: usize) -> (intent: InputIntent)
        requires
            self.wf(),
        ensures
            intent == self.predicted(frame as nat, handle as nat),
    {
        if handle >= self.players {
            proof {
                self.lemma_predicted_no_handle(frame as nat, handle as nat);
            }
            return InputIntent::idle();
        }
        let end: u64 = (self.base as u64) + (self.slots.len() as u64);
        let mut f: u64 = if (frame as u64) < end {
            frame as u64
        } else {
            end
        };
        proof {
            if frame as nat >= self.base() + self.capacity() {
                self.lemma_predicted_beyond(frame as nat, handle as nat);
            }
        }
        while f > self.base as u64
            invariant
                self.wf(),
                handle < self.players,
                f <= self.base + self.slots.len(),
                self.predicted(frame as nat, handle as nat) == self.predicted(f as nat, handle as nat),
            decreases f,
        {
            let earlier: u32 = (f - 1) as u32;
            match self.record_at(earlier, handle) {
                InputRecord::Absent => {},
                InputRecord::Predicted(intent) => {
                    return intent;
                },
                InputRecord::Confirmed(intent) => {
                    return intent;
                },
            }
            f -= 1;
        }
        InputIntent::idle()
    }

    /// The input to simulate `frame` with for `handle`: the confirmed one where
    /// it is known, else the repeat-last-input guess, which is then recorded as
    /// a prediction so that the confirmation can be held against it.
    pub fn resolve(&mut self, frame: u32, handle: usize) -> (got: Result<InputIntent, BufferError>)
        requires
            old(self).wf(),
        ensures
            final(self).wf(),
            final(self).base() == old(self).base(),
            final(self).capacity() == old(self).capacity(),
            final(self).players() == old(self).players(),
            forall|f: nat| #[trigger] final(self).stored(f) == old(self).stored(f),
            got is Ok <==> old(self).in_window(frame as nat) && handle < old(self).players(),
            got == Err::<InputIntent, BufferError>(BufferError::OutOfWindow) <==> !old(
                self,
            ).in_window(frame as nat),
            got == Err::<InputIntent, BufferError>(BufferError::UnknownHandle) <==> old(
                self,
            ).in_window(frame as nat) && handle >= old(self).players(),
            got matches Ok(intent) ==> intent == match old(self).record(frame as nat, handle as nat) {
                InputRecord::Confirmed(known) => known,
                _ => old(self).predicted(frame as nat, handle as nat),
            },
            forall|f: nat, h: nat| #[trigger]
                final(self).record(f, h) == if got is Ok && f == frame && h == handle {
                    spec_assume(
                        old(self).record(f, h),
                        old(self).predicted(frame as nat, handle as nat),
                    )
                } else {
                    old(self).record(f, h)
                },
    {
        if !self.covers(frame) {
            return Err(BufferError::OutOfWindow);
        }
        if handle >= self.players {
            return Err(BufferError::UnknownHandle);
        }
        match self.record_at(frame, handle) {
            InputRecord::Confirmed(known) => Ok(known),
            _ => {
                let guess = self.predict(frame, handle);
                self.write(frame, handle, InputRecord::Predicted(guess));
                Ok(guess)
            },
        }
    }

    /// A guess looks only at the earlier frames of its own handle: two buffers
    /// over the same window that agree on them give the same guess.
    pub proof fn lemma_predicted_same(&self, other: &FrameBuffer, frame: nat, handle: nat)
        requires
            self.base() == other.base(),
            forall|f: nat| f < frame ==> #[trigger] self.record(f, handle) == other.record(f, handle),
        ensures
            self.predicted(frame, handle) == other.predicted(frame, handle),
        decreases frame,
    {
        if frame == 0 || frame <= self.base() {
        } else {
            assert(self.record((frame - 1) as nat, handle) == other.record(
                (frame - 1) as nat,
                handle,
            ));
            self.lemma_predicted_same(other, (frame - 1) as nat, handle);
        }
    }

    /// The input to simulate `frame` with for `handle`: the confirmed one where
    /// it is known, else the repeat-last-input guess.
    pub open spec fn resolved(&self, frame: nat, handle: nat) -> InputIntent {
        match self.record(frame, handle) {
            InputRecord::Confirmed(known) => known,
            _ => self.predicted(frame, handle),
        }
    }

    /// The inputs to simulate `frame` with, one per handle in handle order. Each
    /// guess among them is recorded as a prediction.
    pub fn resolve_frame(&mut self, frame: u32) -> (got: Result<Vec<InputIntent>, BufferError>)
        requires
            old(self).wf(),
        ensures
            final(self).wf(),
            final(self).base() == old(self).base(),
            final(self).capacity() == old(self).capacity(),
            final(self).players() == old(self).players(),
            forall|f: nat| #[trigger] final(self).stored(f) == old(self).stored(f),
            got is Ok <==> old(self).in_window(frame as nat),
            got is Err ==> got == Err::<Vec<InputIntent>, BufferError>(BufferError::OutOfWindow),
            got matches Ok(inputs) ==> inputs.len() == old(self).players() && forall|h: int|
                0 <= h < inputs.len() ==> #[trigger] inputs[h] == old(self).resolved(
                    frame as nat,
                    h as nat,
                ),
            forall|f: nat, h: nat| #[trigger]
                final(self).record(f, h) == if got is Ok && f == frame && h < old(self).players() {
                    spec_assume(old(self).record(f, h), old(self).predicted(f, h))
                } else {
                    old(self).record(f, h)
                },
    {
        if !self.covers(frame) {
            return Err(BufferError::OutOfWindow);
        }
        let mut inputs: Vec<InputIntent> = Vec::new();
        let mut handle: usize = 0;
        while handle < self.players
            invariant
                self.wf(),
                old(self).wf(),
                self.base() == old(self).base(),
                self.capacity() == old(self).capacity(),
                self.players() == old(self).players(),
                self.in_window(frame as nat),
                handle <= self.players,
                inputs.len() == handle,
                forall|f: nat| #[trigger] self.stored(f) == old(self).stored(f),
                forall|h: int|
                    0 <= h < handle ==> #[trigger] inputs[h] == old(self).resolved(
                        frame as nat,
                        h as nat,
                    ),
                forall|f: nat, h: nat| #[trigger]
                    self.record(f, h) == if f == frame && h < handle {
                        spec_assume(old(self).record(f, h), old(self).predicted(f, h))
                    } else {
                        old(self).record(f, h)
                    },
            decreases self.players - handle,
        {
            proof {
                assert forall|f: nat| f < frame implies #[trigger] self.record(f, handle as nat)
                    == old(self).record(f, handle as nat) by {}
                self.lemma_predicted_same(old(self), frame as nat, handle as nat);
            }
            match self.resolve(frame, handle) {
                Ok(intent) => {
                    inputs.push(intent);
                },
                Err(_) => {
                    assert(self.in_window(frame as nat) && handle < self.players());
                    vstd::pervasive::unreached::<()>();
                },
            }
            handle += 1;
        }
        Ok(inputs)
    }

    /// Stores a copy of `state` as the state in which the simulation enters
    /// `frame`, replacing an earlier one. A frame outside the window is
    /// refused.
    pub fn snapshot(&mut self, frame: u32, state: &SimulationState) -> (done: Result<(), BufferError>)
        requires
            old(self).wf(),
        ensures
            final(self).wf(),
            final(self).base() == old(self).base(),
            final(self).capacity() == old(self).capacity(),
            final(self).players() == old(self).players(),
            forall|f: nat, h: nat| #[trigger] final(self).record(f, h) == old(self).record(f, h),
            done is Ok <==> old(self).in_window(frame as nat),
            done is Err ==> done == Err::<(), BufferError>(BufferError::OutOfWindow),
            forall|f: nat| #[trigger]
                final(self).stored(f) == if done is Ok && f == frame {
                    Some(state@)
                } else {
                    old(self).stored(f)
                },
    {
        if !self.covers(frame) {
            return Err(BufferError::OutOfWindow);
        }
        let k = self.slot_of(frame);
        self.slots[k].snapshot = Some(state.duplicate());
        proof {
            let c = self.slots.len() as int;
            assert forall|f: nat| #[trigger]
                self.stored(f) == if f == frame {
                    Some(state@)
                } else {
                    old(self).stored(f)
                } by {
                if self.in_window(f) && f % (c as nat) == k && f != frame {
                    if f < frame {
                        lemma_slot_unique(f as int, frame as int, c);
                    } else {
                        lemma_slot_unique(frame as int, f as int, c);
                    }
                }
            }
            assert forall|f: nat, h: nat| #[trigger] self.record(f, h) == old(self).record(f, h) by {}
        }
        Ok(())
    }

    /// Hands out a copy of the state stored for the start of `frame`. A frame
    /// outside the window is refused, and so is one for which nothing was
    /// stored: the buffer never serves the state of another frame.
    pub fn restore(&self, frame: u32) -> (got: Result<SimulationState, BufferError>)
        requires
            self.wf(),
        ensures
            got is Ok <==> self.stored(frame as nat) is Some,
            got matches Ok(state) ==> Some(state@) == self.stored(frame as nat),
            got matches Err(e) ==> e == if self.in_window(frame as nat) {
                BufferError::NoSnapshot
            } else {
                BufferError::OutOfWindow
            },
    {
        if !self.covers(frame) {
            return Err(BufferError::OutOfWindow);
        }
        let k = self.slot_of(frame);
        match &self.slots[k].snapshot {
            Some(state) => Ok(state.duplicate()),
            None => Err(BufferError::NoSnapshot),
        }
    }

    /// Moves the window forward by one frame. The oldest frame leaves it, with
    /// its inputs and its snapshot; the frame that enters is empty. Refused
    /// when the window already ends at the last frame index.
    pub fn advance(&mut self) -> (done: Result<(), BufferError>)
        requires
            old(self).wf(),
        ensures
            final(self).wf(),
            final(self).capacity() == old(self).capacity(),
            final(self).players() == old(self).players(),
            done is Ok <==> old(self).base() + old(self).capacity() < 0x1_0000_0000,
            done is Err ==> done == Err::<(), BufferError>(BufferError::FrameLimit),
            final(self).base() == if done is Ok {
                old(self).base() + 1
            } else {
                old(self).base()
            },
            forall|f: nat, h: nat| #[trigger]
                final(self).record(f, h) == if done is Ok && f == old(self).base() {
                    InputRecord::Absent
                } else {
                    old(self).record(f, h)
                },
            forall|f: nat| #[trigger]
                final(self).stored(f) == if done is Ok && f == old(self).base() {
                    None
                } else {
                    old(self).stored(f)
                },
    {
        if (self.base as u64) + (self.slots.len() as u64) >= 0x1_0000_0000 {
            return Err(BufferError::FrameLimit);
        }
        let k = self.slot_of(self.base);
        let fresh = empty_slot(self.players);
        self.slots[k] = fresh;
        self.base = self.base + 1;
        proof {
            let c = self.slots.len() as int;
            let entering = (old(self).base + c) as nat;
            assert(entering % (c as nat) == k) by {
                vstd::arithmetic::div_mod::lemma_mod_add_multiples_vanish(old(self).base as int, c);
            }
            assert forall|f: nat, h: nat| #[trigger]
                self.record(f, h) == if f == old(self).base() {
                    InputRecord::Absent
                } else {
                    old(self).record(f, h)
                } by {
                if self.in_window(f) && h < self.players && f != entering {
                    if f % (c as nat) == k {
                        lemma_slot_unique(old(self).base as int, f as int, c);
                    }
                }
            }
            assert forall|f: nat| #[trigger]
                self.stored(f) == if f == old(self).base() {
                    None
                } else {
                    old(self).stored(f)
                } by {
                if self.in_window(f) && f != entering {
                    if f % (c as nat) == k {
                        lemma_slot_unique(old(self).base as int, f as int, c);
                    }
                }
            }
        }
        Ok(())
    }

    /// Every frame of the window is a valid frame index.
    pub proof fn lemma_window_fits(&self)
        requires
            self.wf(),
        ensures
            self.capacity() >= 1,
            self.base() + self.capacity() <= 0x1_0000_0000,
    {
    }

    /// Bounded retention: for a frame outside the window the buffer holds
    /// neither an input nor a state, so nothing stale can be served for it.
    pub proof fn lemma_nothing_outside_window(&self, frame: nat, handle: nat)
        requires
            !self.in_window(frame),
        ensures
            self.record(frame, handle) == InputRecord::Absent,
            self.stored(frame) is None,
    {
    }
}

} // verus!
