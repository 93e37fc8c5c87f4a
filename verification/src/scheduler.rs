//! The rollback scheduler: one tick per frame.
//!
//! A tick records the local input, takes in what arrived from the remote peer,
//! simulates again from the earliest frame whose prediction proved wrong, and
//! then advances by one frame, guessing the remote input where it is not yet
//! known. The simulation is therefore always the one that follows from the
//! inputs known so far.

use crate::frame_buffer::{spec_assume, spec_confirm, Agreement, FrameBuffer, InputRecord};
use crate::input::{spec_idle, InputIntent};
use crate::wire::Datagram;
use crate::player::PLAYER_COUNT;
use crate::world::{
    lemma_replay_wf, spec_replay, step, SimConfig, SimulationModel, SimulationState,
};
use vstd::prelude::*;

verus! {

/// Why a scheduler stopped for good.
#[derive(Clone, Copy, Debug, PartialEq, Eq, Structural)]
pub enum Fault {
    /// A frame was about to leave the retention window before the remote input
    /// for it was confirmed. Going on would let the two peers diverge.
    Overrun,
    /// The frame index has reached its last value.
    FrameLimit,
}

/// What both peers agree on before the first tick.
#[derive(Clone, Copy, Debug, PartialEq, Eq, Structural)]
pub struct SchedulerConfig {
    /// How many past frames stay open to correction.
    pub retention_window: u32,
    /// How many frames lie between capturing a local input and applying it.
    pub input_delay: u32,
    /// The handle of the player on this machine.
    pub local_handle: usize,
    /// The parameters of the simulation.
    pub sim: SimConfig,
}

impl SchedulerConfig {
    /// A configuration is usable when something is retained, the window fits
    /// the frame index, the local handle is one of the players, and the
    /// simulation parameters are sound.
    pub open spec fn wf(self) -> bool {
        &&& self.retention_window >= 1
        &&& 2 * self.retention_window + self.input_delay + 1 <= u32::MAX
        &&& self.local_handle < PLAYER_COUNT
        &&& self.sim.wf()
    }

    /// Frames that the buffer covers: the retained past, the frames up to the
    /// one that a local input is captured for, and as many again ahead for
    /// inputs of a peer that runs ahead.
    pub open spec fn capacity(self) -> nat {
        (2 * self.retention_window + self.input_delay + 1) as nat
    }

    /// Whether the configuration is usable.
    pub fn is_valid(&self) -> (ok: bool)
        ensures
            ok == self.wf(),
    {
        self.retention_window >= 1 && 2 * (self.retention_window as u64) + (
        self.input_delay as u64) + 1 <= u32::MAX as u64 && self.local_handle < PLAYER_COUNT
            && self.sim.viewport.left <= self.sim.viewport.right && self.sim.viewport.bottom
            <= self.sim.viewport.top
    }
}

/// The intent that a guess for `frame` repeats: what the timeline holds for
/// the frame before, and the idle intent for the first frame.
pub open spec fn spec_previous(timeline: Seq<Seq<InputIntent>>, frame: nat, handle: nat) -> InputIntent {
    if frame == 0 {
        spec_idle()
    } else {
        timeline[frame - 1][handle as int]
    }
}

/// The intent of the first of the datagrams that speaks of `handle` in
/// `frame`, if one does.
pub open spec fn spec_heard(datagrams: Seq<Datagram>, frame: nat, handle: nat) -> Option<InputIntent>
    decreases datagrams.len(),
{
    if datagrams.len() == 0 {
        None
    } else {
        match spec_heard(datagrams.drop_last(), frame, handle) {
            Some(intent) => Some(intent),
            None => if datagrams.last().frame == frame && datagrams.last().handle == handle {
                Some(datagrams.last().intent)
            } else {
                None
            },
        }
    }
}

/// What a tick did.
#[derive(Clone, Copy, Debug, PartialEq, Eq, Structural)]
pub enum TickOutcome {
    /// The simulation advanced by one frame.
    Advanced {
        /// The local input of this tick, to be sent to the remote peer.
        outgoing: Datagram,
        /// The earliest frame that was simulated again because its prediction
        /// proved wrong, if any was.
        resimulated_from: Option<u32>,
    },
    /// The scheduler has stopped and produces no further frame.
    Halted(Fault),
}

/// The scheduler of one peer.
pub struct RollbackScheduler {
    config: SchedulerConfig,
    buffer: FrameBuffer,
    state: SimulationState,
    current: u32,
    fault: Option<Fault>,
    start: Ghost<SimulationModel>,
    timeline: Ghost<Seq<Seq<InputIntent>>>,
}

impl RollbackScheduler {
    /// The configuration that the scheduler was made with.
    pub closed spec fn config(&self) -> SchedulerConfig {
        self.config
    }

    /// The number of frames simulated so far, which is the index of the next.
    pub closed spec fn current(&self) -> nat {
        self.current as nat
    }

    /// The state in which the match began.
    pub closed spec fn start(&self) -> SimulationModel {
        self.start@
    }

    /// The state of the simulation now.
    pub closed spec fn world(&self) -> SimulationModel {
        self.state@
    }

    /// The inputs that the frames so far are simulated with, one entry per
    /// frame, each with one intent per handle.
    pub closed spec fn timeline(&self) -> Seq<Seq<InputIntent>> {
        self.timeline@
    }

    /// Why the scheduler stopped, if it has.
    pub closed spec fn fault(&self) -> Option<Fault> {
        self.fault
    }

    /// The oldest frame that is still open to correction.
    pub open spec fn window_start(&self) -> nat {
        if self.current() >= self.config().retention_window {
            (self.current() - self.config().retention_window) as nat
        } else {
            0
        }
    }

    /// The first frame beyond those that the buffer covers.
    pub open spec fn window_end(&self) -> nat {
        self.window_start() + self.config().capacity()
    }

    /// The confirmed input of `handle` for `frame`, as far as it is known.
    /// Frames that have left the window were confirmed before they left.
    pub closed spec fn known(&self, frame: nat, handle: nat) -> Option<InputIntent> {
        if handle >= PLAYER_COUNT {
            None
        } else if frame < self.buffer.base() {
            Some(self.timeline@[frame as int][handle as int])
        } else {
            match self.buffer.record(frame, handle) {
                InputRecord::Confirmed(intent) => Some(intent),
                _ => None,
            }
        }
    }

    /// Whether the scheduler takes in a datagram for `handle` in `frame`: it
    /// must speak of the remote player and of a frame that the buffer covers.
    pub open spec fn listens(&self, frame: nat, handle: nat) -> bool {
        &&& handle < PLAYER_COUNT
        &&& handle != self.config().local_handle
        &&& self.window_start() <= frame < self.window_end()
    }

    spec fn basic(&self) -> bool {
        &&& self.config.wf()
        &&& self.buffer.wf()
        &&& self.buffer.players() == PLAYER_COUNT
        &&& self.buffer.capacity() == self.config.capacity()
        &&& self.buffer.base() == self.window_start()
        &&& self.timeline@.len() == self.current
        &&& forall|f: int|
            0 <= f < self.current ==> (#[trigger] self.timeline@[f]).len() == PLAYER_COUNT
        &&& self.start@.wf(PLAYER_COUNT as nat)
        &&& forall|f: nat, h: nat|
            f >= self.current ==> !(#[trigger] self.buffer.record(f, h) is Predicted)
        &&& forall|f: nat|
            self.buffer.base() <= f < self.current + self.config.input_delay
                ==> #[trigger] self.buffer.record(f, self.config.local_handle as nat) is Confirmed
        &&& forall|f: nat, h: nat|
            self.buffer.base() <= f < self.current && h < PLAYER_COUNT ==> !(
            #[trigger] self.buffer.record(f, h) is Absent)
    }

    spec fn snapshots(&self, upto: nat) -> bool {
        forall|f: nat|
            self.buffer.base() <= f <= upto ==> #[trigger] self.buffer.stored(f) == Some(
                spec_replay(self.start@, self.timeline@.take(f as int), self.config.sim),
            )
    }

    spec fn linked(&self, upto: nat) -> bool {
        forall|f: nat, h: nat|
            self.buffer.base() <= f < upto && h < PLAYER_COUNT ==> match #[trigger] self.buffer.record(
                f,
                h,
            ) {
                InputRecord::Confirmed(intent) => self.timeline@[f as int][h as int] == intent,
                InputRecord::Predicted(guess) => self.timeline@[f as int][h as int] == guess
                    && guess == spec_previous(self.timeline@, f, h),
                InputRecord::Absent => false,
            }
    }

    /// The invariant of the scheduler. The state is the replay of the timeline
    /// from the start; every snapshot in the window is the replay of the
    /// timeline up to its frame; and the timeline holds, for every frame and
    /// handle, the confirmed input where it is known and else a repetition of
    /// the frame before.
    pub closed spec fn wf(&self) -> bool {
        &&& self.basic()
        &&& self.snapshots(self.current as nat)
        &&& self.linked(self.current as nat)
        &&& self.state@ == spec_replay(self.start@, self.timeline@, self.config.sim)
    }

    /// A scheduler at frame 0. With an input delay the first frames can have no
    /// input of either player, which both peers know: they are confirmed idle.
    /// There is no scheduler for an unusable configuration, nor for a start
    /// state that does not fit the two handles.
    pub fn new(config: SchedulerConfig, initial: &SimulationState) -> (made: Option<RollbackScheduler>)
        ensures
            made is Some <==> config.wf() && initial@.wf(PLAYER_COUNT as nat),
            made matches Some(s) ==> {
                &&& s.wf()
                &&& s.config() == config
                &&& s.current() == 0
                &&& s.start() == initial@
                &&& s.world() == initial@
                &&& s.timeline() == Seq::<Seq<InputIntent>>::empty()
                &&& s.fault() is None
                &&& forall|f: nat, h: nat| #[trigger]
                    s.known(f, h) == if f < config.input_delay && h < PLAYER_COUNT {
                        Some(spec_idle())
                    } else {
                        None
                    }
            },
    {
        if !config.is_valid() || !initial.fits(PLAYER_COUNT) {
            return None;
        }
        let capacity: u32 = 2 * config.retention_window + config.input_delay + 1;
        let mut buffer = match FrameBuffer::new(capacity, PLAYER_COUNT) {
            Some(buffer) => buffer,
            None => {
                return None;
            },
        };
        let mut f: u32 = 0;
        while f < config.input_delay
            invariant
                config.wf(),
                f <= config.input_delay,
                buffer.wf(),
                buffer.base() == 0,
                buffer.capacity() == config.capacity(),
                buffer.players() == PLAYER_COUNT,
                forall|g: nat| #[trigger] buffer.stored(g) is None,
                forall|g: nat, h: nat| #[trigger]
                    buffer.record(g, h) == if g < f && h < PLAYER_COUNT {
                        InputRecord::Confirmed(spec_idle())
                    } else {
                        InputRecord::Absent
                    },
            decreases config.input_delay - f,
        {
            let mut handle: usize = 0;
            while handle < PLAYER_COUNT
                invariant
                    config.wf(),
                    f < config.input_delay,
                    handle <= PLAYER_COUNT,
                    buffer.wf(),
                    buffer.base() == 0,
                    buffer.capacity() == config.capacity(),
                    buffer.players() == PLAYER_COUNT,
                    forall|g: nat| #[trigger] buffer.stored(g) is None,
                    forall|g: nat, h: nat| #[trigger]
                        buffer.record(g, h) == if (g < f && h < PLAYER_COUNT) || (g == f && h
                            < handle) {
                            InputRecord::Confirmed(spec_idle())
                        } else {
                            InputRecord::Absent
                        },
                decreases PLAYER_COUNT - handle,
            {
                let _ = buffer.record_local(f, handle, InputIntent::idle());
                handle += 1;
            }
            f += 1;
        }
        let _ = buffer.snapshot(0, initial);
        let scheduler = RollbackScheduler {
            config,
            buffer,
            state: initial.duplicate(),
            current: 0,
            fault: None,
            start: Ghost(initial@),
            timeline: Ghost(Seq::empty()),
        };
        proof {
            assert(scheduler.timeline@.take(0) =~= scheduler.timeline@);
            assert(scheduler.basic());
            assert(scheduler.snapshots(0));
            assert(scheduler.linked(0));
        }
        Some(scheduler)
    }

    /// What is known after a tick that captures `local` and takes in
    /// `datagrams`. What was known stays. The local input becomes known for the
    /// frame that lies the input delay ahead. Of the remote player, each frame
    /// in the window becomes known from the first datagram that speaks of it.
    pub open spec fn learned(
        &self,
        local: InputIntent,
        datagrams: Seq<Datagram>,
        frame: nat,
        handle: nat,
    ) -> Option<InputIntent> {
        match self.known(frame, handle) {
            Some(intent) => Some(intent),
            None => if handle == self.config().local_handle {
                if frame == self.current() + self.config().input_delay {
                    Some(local)
                } else {
                    None
                }
            } else if self.listens(frame, handle) {
                spec_heard(datagrams, frame, handle)
            } else {
                None
            },
        }
    }

    spec fn remote(&self) -> nat {
        (1 - self.config.local_handle) as nat
    }

    spec fn receiving(&self, dirty: nat) -> bool {
        &&& self.basic()
        &&& self.snapshots(self.current as nat)
        &&& self.linked(dirty)
        &&& self.state@ == spec_replay(self.start@, self.timeline@, self.config.sim)
        &&& self.state@.wf(PLAYER_COUNT as nat)
        &&& dirty <= self.current
        &&& dirty < self.current ==> {
            &&& self.buffer.base() <= dirty
            &&& self.buffer.record(dirty, self.remote()) matches InputRecord::Confirmed(intent)
            &&& self.buffer.record(dirty, self.remote())->Confirmed_0
                != self.timeline@[dirty as int][self.remote() as int]
        }
    }

    spec fn same_core(&self, other: &RollbackScheduler) -> bool {
        &&& self.config == other.config
        &&& self.current == other.current
        &&& self.fault == other.fault
        &&& self.start@ == other.start@
    }

    fn take_in(&mut self, datagrams: &Vec<Datagram>) -> (dirty: u32)
        requires
            old(self).receiving(old(self).current as nat),
        ensures
            final(self).receiving(dirty as nat),
            final(self).same_core(old(self)),
            final(self).timeline@ == old(self).timeline@,
            final(self).state@ == old(self).state@,
            forall|f: nat, h: nat| #[trigger]
                final(self).known(f, h) == match old(self).known(f, h) {
                    Some(intent) => Some(intent),
                    None => if h != old(self).config.local_handle && h < PLAYER_COUNT && old(
                        self,
                    ).window_start() <= f < old(self).window_end() {
                        spec_heard(datagrams@, f, h)
                    } else {
                        None
                    },
                },
    {
        let mut dirty: u32 = self.current;
        let mut k: usize = 0;
        while k < datagrams.len()
            invariant
                k <= datagrams.len(),
                self.receiving(dirty as nat),
                self.same_core(old(self)),
                self.timeline@ == old(self).timeline@,
                self.state@ == old(self).state@,
                self.buffer.base() == old(self).buffer.base(),
                old(self).basic(),
                forall|f: nat, h: nat| #[trigger]
                    self.known(f, h) == match old(self).known(f, h) {
                        Some(intent) => Some(intent),
                        None => if h != old(self).config.local_handle && h < PLAYER_COUNT && old(
                            self,
                        ).window_start() <= f < old(self).window_end() {
                            spec_heard(datagrams@.take(k as int), f, h)
                        } else {
                            None
                        },
                    },
            decreases datagrams.len() - k,
        {
            let d = datagrams[k];
            let handle = d.handle as usize;
            let ghost before = *self;
            let ghost heard = datagrams@.take(k as int);
            let ghost heard_next = datagrams@.take(k + 1);
            proof {
                assert(heard_next.drop_last() =~= heard);
                assert(heard_next.last() == d);
            }
            if handle < PLAYER_COUNT && handle != self.config.local_handle && self.buffer.covers(
                d.frame,
            ) {
                let result = self.buffer.record_remote(d.frame, handle, d.intent);
                let mismatched = match result {
                    Ok(Agreement::Mismatched) => true,
                    _ => false,
                };
                proof {
                    assert(handle as nat == self.remote());
                    let was = before.buffer.record(d.frame as nat, handle as nat);
                    assert(self.buffer.record(d.frame as nat, handle as nat) == spec_confirm(
                        was,
                        d.intent,
                    ));
                    if mismatched {
                        assert(was is Predicted);
                        assert(d.frame < self.current);
                    }
                }
                let next_dirty: u32 = if mismatched && d.frame < dirty {
                    d.frame
                } else {
                    dirty
                };
                proof {
                    assert(self.basic()) by {
                        assert forall|f: nat|
                            self.buffer.base() <= f < self.current + self.config.input_delay implies #[trigger] self.buffer.record(
                            f,
                            self.config.local_handle as nat,
                        ) is Confirmed by {
                            assert(before.buffer.record(f, self.config.local_handle as nat) is Confirmed);
                        }
                        assert forall|f: nat, h: nat| f >= self.current implies !(
                        #[trigger] self.buffer.record(f, h) is Predicted) by {
                            assert(!(before.buffer.record(f, h) is Predicted));
                        }
                        assert forall|f: nat, h: nat|
                            self.buffer.base() <= f < self.current && h < PLAYER_COUNT implies !(
                        #[trigger] self.buffer.record(f, h) is Absent) by {
                            assert(!(before.buffer.record(f, h) is Absent));
                        }
                    }
                    assert(self.snapshots(self.current as nat)) by {
                        assert forall|f: nat|
                            self.buffer.base() <= f <= self.current implies #[trigger] self.buffer.stored(
                            f,
                        ) == Some(
                            spec_replay(self.start@, self.timeline@.take(f as int), self.config.sim),
                        ) by {
                            assert(before.buffer.stored(f) == self.buffer.stored(f));
                        }
                    }
                    assert(self.linked(next_dirty as nat)) by {
                        assert forall|f: nat, h: nat|
                            self.buffer.base() <= f < next_dirty && h < PLAYER_COUNT implies match #[trigger] self.buffer.record(
                            f,
                            h,
                        ) {
                            InputRecord::Confirmed(intent) => self.timeline@[f as int][h as int]
                                == intent,
                            InputRecord::Predicted(guess) => self.timeline@[f as int][h as int]
                                == guess && guess == spec_previous(self.timeline@, f, h),
                            InputRecord::Absent => false,
                        } by {
                            let was_fh = before.buffer.record(f, h);
                            assert(match was_fh {
                                InputRecord::Confirmed(intent) => self.timeline@[f as int][h as int]
                                    == intent,
                                InputRecord::Predicted(guess) => self.timeline@[f as int][h as int]
                                    == guess && guess == spec_previous(self.timeline@, f, h),
                                InputRecord::Absent => false,
                            });
                        }
                    }
                    if next_dirty < self.current {
                        if next_dirty == dirty {
                            assert(before.buffer.record(dirty as nat, self.remote()) is Confirmed);
                            assert(self.buffer.record(dirty as nat, self.remote())
                                == before.buffer.record(dirty as nat, self.remote()));
                        } else {
                            let was = before.buffer.record(d.frame as nat, handle as nat);
                            assert(was is Predicted);
                            assert(match was {
                                InputRecord::Confirmed(intent) => self.timeline@[d.frame as int][handle as int]
                                    == intent,
                                InputRecord::Predicted(guess) => self.timeline@[d.frame as int][handle as int]
                                    == guess && guess == spec_previous(
                                    self.timeline@,
                                    d.frame as nat,
                                    handle as nat,
                                ),
                                InputRecord::Absent => false,
                            });
                        }
                    }
                    assert(self.receiving(next_dirty as nat));
                    assert forall|f: nat, h: nat| #[trigger]
                        self.known(f, h) == match old(self).known(f, h) {
                            Some(intent) => Some(intent),
                            None => if h != old(self).config.local_handle && h < PLAYER_COUNT && old(
                                self,
                            ).window_start() <= f < old(self).window_end() {
                                spec_heard(heard_next, f, h)
                            } else {
                                None
                            },
                        } by {
                        assert(before.known(f, h) == match old(self).known(f, h) {
                            Some(intent) => Some(intent),
                            None => if h != old(self).config.local_handle && h < PLAYER_COUNT && old(
                                self,
                            ).window_start() <= f < old(self).window_end() {
                                spec_heard(heard, f, h)
                            } else {
                                None
                            },
                        });
                        assert(self.buffer.record(f, h) == if f == d.frame && h == handle {
                            spec_confirm(before.buffer.record(f, h), d.intent)
                        } else {
                            before.buffer.record(f, h)
                        });
                    }
                }
                dirty = next_dirty;
            } else {
                proof {
                    assert forall|f: nat, h: nat| #[trigger]
                        self.known(f, h) == match old(self).known(f, h) {
                            Some(intent) => Some(intent),
                            None => if h != old(self).config.local_handle && h < PLAYER_COUNT && old(
                                self,
                            ).window_start() <= f < old(self).window_end() {
                                spec_heard(heard_next, f, h)
                            } else {
                                None
                            },
                        } by {
                        assert(before.known(f, h) == match old(self).known(f, h) {
                            Some(intent) => Some(intent),
                            None => if h != old(self).config.local_handle && h < PLAYER_COUNT && old(
                                self,
                            ).window_start() <= f < old(self).window_end() {
                                spec_heard(heard, f, h)
                            } else {
                                None
                            },
                        });
                    }
                }
            }
            k += 1;
        }
        assert(datagrams@.take(k as int) =~= datagrams@);
        dirty
    }

    fn resimulate(&mut self, dirty: u32)
        requires
            old(self).receiving(dirty as nat),
        ensures
            final(self).wf(),
            final(self).same_core(old(self)),
            forall|f: nat, h: nat| #[trigger] final(self).known(f, h) == old(self).known(f, h),
            final(self).timeline@.take(dirty as int) == old(self).timeline@.take(dirty as int),
            dirty < old(self).current ==> final(self).timeline@[dirty as int] != old(
                self,
            ).timeline@[dirty as int],
            dirty == old(self).current ==> final(self).timeline@ == old(self).timeline@
                && final(self).state@ == old(self).state@,
    {
        if dirty >= self.current {
            return ;
        }
        let mut state = match self.buffer.restore(dirty) {
            Ok(state) => state,
            Err(_) => {
                proof {
                    assert(self.buffer.stored(dirty as nat) is Some);
                }
                return ;
            },
        };
        proof {
            lemma_replay_wf(
                self.start@,
                self.timeline@.take(dirty as int),
                self.config.sim,
                PLAYER_COUNT as nat,
            );
        }
        let ghost wrong = self.timeline@[dirty as int][self.remote() as int];
        let mut f: u32 = dirty;
        while f < self.current
            invariant
                dirty <= f <= self.current,
                dirty < self.current,
                self.buffer.base() <= dirty,
                self.same_core(old(self)),
                old(self).basic(),
                self.basic(),
                self.snapshots(f as nat),
                self.linked(f as nat),
                state@ == spec_replay(self.start@, self.timeline@.take(f as int), self.config.sim),
                state@.wf(PLAYER_COUNT as nat),
                self.timeline@.take(dirty as int) == old(self).timeline@.take(dirty as int),
                wrong == old(self).timeline@[dirty as int][self.remote() as int],
                f > dirty ==> self.timeline@[dirty as int][self.remote() as int] != wrong,
                self.buffer.record(dirty as nat, self.remote()) is Confirmed,
                self.buffer.record(dirty as nat, self.remote())->Confirmed_0 != wrong,
                forall|g: nat, h: nat| #[trigger] self.known(g, h) == old(self).known(g, h),
            decreases self.current - f,
        {
            let ghost before = *self;
            let inputs = match self.buffer.resolve_frame(f) {
                Ok(inputs) => inputs,
                Err(_) => {
                    proof {
                        assert(self.buffer.in_window(f as nat));
                    }
                    return ;
                },
            };
            let next = step(&state, &inputs, &self.config.sim);
            let entered: u32 = f + 1;
            let _ = self.buffer.snapshot(entered, &next);
            self.timeline = Ghost(self.timeline@.update(f as int, inputs@));
            proof {
                let t = before.timeline@;
                let t2 = self.timeline@;
                let base = self.buffer.base();
                assert forall|h: nat| h < PLAYER_COUNT implies match #[trigger] self.buffer.record(
                    f as nat,
                    h,
                ) {
                    InputRecord::Confirmed(intent) => t2[f as int][h as int] == intent,
                    InputRecord::Predicted(guess) => t2[f as int][h as int] == guess && guess
                        == spec_previous(t2, f as nat, h),
                    InputRecord::Absent => false,
                } by {
                    let was = before.buffer.record(f as nat, h);
                    assert(self.buffer.record(f as nat, h) == spec_assume(
                        was,
                        before.buffer.predicted(f as nat, h),
                    ));
                    assert(inputs@[h as int] == before.buffer.resolved(f as nat, h));
                    if !(was is Confirmed) {
                        if f == dirty {
                            assert(h == self.remote() || h == self.config.local_handle);
                            assert(before.buffer.record(f as nat, self.config.local_handle as nat) is Confirmed);
                        } else {
                            let earlier = (f - 1) as nat;
                            assert(!(before.buffer.record(earlier, h) is Absent));
                            assert(match before.buffer.record(earlier, h) {
                                InputRecord::Confirmed(intent) => t[earlier as int][h as int]
                                    == intent,
                                InputRecord::Predicted(guess) => t[earlier as int][h as int]
                                    == guess && guess == spec_previous(t, earlier, h),
                                InputRecord::Absent => false,
                            });
                        }
                    }
                }
                assert(self.basic()) by {
                    assert forall|g: int| 0 <= g < self.current implies (#[trigger] t2[g]).len()
                        == PLAYER_COUNT by {
                        assert(t[g].len() == PLAYER_COUNT);
                    }
                    assert forall|g: nat|
                        base <= g < self.current + self.config.input_delay implies #[trigger] self.buffer.record(
                        g,
                        self.config.local_handle as nat,
                    ) is Confirmed by {
                        assert(before.buffer.record(g, self.config.local_handle as nat) is Confirmed);
                    }
                    assert forall|g: nat, h: nat| g >= self.current implies !(
                    #[trigger] self.buffer.record(g, h) is Predicted) by {
                        assert(!(before.buffer.record(g, h) is Predicted));
                    }
                    assert forall|g: nat, h: nat|
                        base <= g < self.current && h < PLAYER_COUNT implies !(#[trigger] self.buffer.record(
                        g,
                        h,
                    ) is Absent) by {
                        assert(!(before.buffer.record(g, h) is Absent));
                    }
                }
                assert(self.linked(entered as nat)) by {
                    assert forall|g: nat, h: nat|
                        base <= g < entered && h < PLAYER_COUNT implies match #[trigger] self.buffer.record(
                        g,
                        h,
                    ) {
                        InputRecord::Confirmed(intent) => t2[g as int][h as int] == intent,
                        InputRecord::Predicted(guess) => t2[g as int][h as int] == guess && guess
                            == spec_previous(t2, g, h),
                        InputRecord::Absent => false,
                    } by {
                        if g < f {
                            assert(match before.buffer.record(g, h) {
                                InputRecord::Confirmed(intent) => t[g as int][h as int] == intent,
                                InputRecord::Predicted(guess) => t[g as int][h as int] == guess
                                    && guess == spec_previous(t, g, h),
                                InputRecord::Absent => false,
                            });
                        }
                    }
                }
                assert(self.snapshots(entered as nat)) by {
                    assert forall|g: nat| base <= g <= entered implies #[trigger] self.buffer.stored(
                        g,
                    ) == Some(spec_replay(self.start@, t2.take(g as int), self.config.sim)) by {
                        if g <= f {
                            assert(before.buffer.stored(g) == Some(
                                spec_replay(before.start@, t.take(g as int), before.config.sim),
                            ));
                            assert(t2.take(g as int) =~= t.take(g as int));
                        } else {
                            assert(t2.take(entered as int).drop_last() =~= t.take(f as int));
                            assert(t2.take(entered as int).last() == inputs@);
                        }
                    }
                }
                assert(t2.take(entered as int).drop_last() =~= t.take(f as int));
                assert(t2.take(entered as int).last() == inputs@);
                assert(t2.take(dirty as int) =~= t.take(dirty as int));
                assert forall|g: nat, h: nat| #[trigger] self.known(g, h) == old(self).known(g, h) by {
                    assert(before.known(g, h) == old(self).known(g, h));
                    assert(self.buffer.record(g, h) == if g == f && h < PLAYER_COUNT {
                        spec_assume(before.buffer.record(g, h), before.buffer.predicted(g, h))
                    } else {
                        before.buffer.record(g, h)
                    });
                }
                if f == dirty {
                    assert(t2[dirty as int][self.remote() as int] == inputs@[self.remote() as int]);
                }
            }
            state = next;
            f = entered;
        }
        let ghost replayed = *self;
        self.state = state;
        proof {
            assert(self.timeline@.take(self.current as int) =~= self.timeline@);
            assert forall|g: nat, h: nat| #[trigger] self.known(g, h) == old(self).known(g, h) by {
                assert(replayed.known(g, h) == old(self).known(g, h));
            }
        }
    }

    /// Whether a frame is about to leave the window with an input still
    /// unconfirmed.
    pub open spec fn overdue(&self) -> bool {
        self.current() >= self.config().retention_window && exists|h: nat|
            h < PLAYER_COUNT && (#[trigger] self.known(self.window_start(), h)) is None
    }

    /// Whether the window cannot move on because it ends at the last frame
    /// index.
    pub open spec fn exhausted(&self) -> bool {
        self.current() >= self.config().retention_window && self.window_end() >= 0x1_0000_0000
    }

    #[verifier::rlimit(50)]
    fn advance_frame(&mut self) -> (done: Result<(), Fault>)
        requires
            old(self).wf(),
            old(self).fault is None,
            old(self).buffer.record(
                (old(self).current + old(self).config.input_delay) as nat,
                old(self).config.local_handle as nat,
            ) is Confirmed,
        ensures
            final(self).wf(),
            final(self).config == old(self).config,
            final(self).start@ == old(self).start@,
            forall|f: nat, h: nat| #[trigger] final(self).known(f, h) == old(self).known(f, h),
            done == Err::<(), Fault>(Fault::Overrun) <==> old(self).overdue(),
            done == Err::<(), Fault>(Fault::FrameLimit) <==> !old(self).overdue() && old(
                self,
            ).exhausted(),
            done matches Err(fault) ==> {
                &&& final(self).fault == Some(fault)
                &&& final(self).current == old(self).current
                &&& final(self).timeline@ == old(self).timeline@
                &&& final(self).state@ == old(self).state@
            },
            done is Ok ==> {
                &&& final(self).fault is None
                &&& final(self).current == old(self).current + 1
                &&& final(self).timeline@.take(old(self).current as int) == old(self).timeline@
            },
    {
        let evicting = self.current >= self.config.retention_window;
        if evicting {
            let oldest = self.buffer.first_frame();
            let settled = self.buffer.is_settled(oldest);
            proof {
                if settled {
                    assert forall|h: nat| h < PLAYER_COUNT implies !((#[trigger] self.known(
                        self.window_start(),
                        h,
                    )) is None) by {
                        assert(self.buffer.record(oldest as nat, h) is Confirmed);
                    }
                } else {
                    let h = choose|h: nat|
                        h < self.buffer.players() && !(self.buffer.record(
                            oldest as nat,
                            h,
                        ) is Confirmed);
                    assert(self.known(self.window_start(), h) is None);
                }
            }
            if !settled {
                self.fault = Some(Fault::Overrun);
                return Err(Fault::Overrun);
            }
            if (oldest as u64) + (self.buffer.window_len() as u64) >= 0x1_0000_0000 {
                self.fault = Some(Fault::FrameLimit);
                return Err(Fault::FrameLimit);
            }
        }
        let ghost before = *self;
        let frame = self.current;
        let inputs = match self.buffer.resolve_frame(frame) {
            Ok(inputs) => inputs,
            Err(_) => {
                proof {
                    assert(self.buffer.in_window(frame as nat));
                }
                return Ok(());
            },
        };
        proof {
            lemma_replay_wf(self.start@, self.timeline@, self.config.sim, PLAYER_COUNT as nat);
        }
        let next = step(&self.state, &inputs, &self.config.sim);
        let ghost resolved = *self;
        if evicting {
            let _ = self.buffer.advance();
        }
        let entered: u32 = frame + 1;
        let _ = self.buffer.snapshot(entered, &next);
        self.timeline = Ghost(self.timeline@.push(inputs@));
        self.current = entered;
        self.state = next;
        proof {
            let t = before.timeline@;
            let t2 = self.timeline@;
            let base = self.buffer.base();
            let old_base = before.buffer.base();
            assert(base == self.window_start());
            assert(t2.drop_last() =~= t);
            assert(t2.take(frame as int) =~= t);
            assert forall|g: nat, h: nat| #[trigger]
                self.buffer.record(g, h) == if g == frame && h < PLAYER_COUNT {
                    spec_assume(before.buffer.record(g, h), before.buffer.predicted(g, h))
                } else if evicting && g == old_base {
                    InputRecord::Absent
                } else {
                    before.buffer.record(g, h)
                } by {
                assert(resolved.buffer.record(g, h) == if g == frame && h < PLAYER_COUNT {
                    spec_assume(before.buffer.record(g, h), before.buffer.predicted(g, h))
                } else {
                    before.buffer.record(g, h)
                });
            }
            assert forall|h: nat| h < PLAYER_COUNT implies match #[trigger] self.buffer.record(
                frame as nat,
                h,
            ) {
                InputRecord::Confirmed(intent) => t2[frame as int][h as int] == intent,
                InputRecord::Predicted(guess) => t2[frame as int][h as int] == guess && guess
                    == spec_previous(t2, frame as nat, h),
                InputRecord::Absent => false,
            } by {
                let was = before.buffer.record(frame as nat, h);
                assert(inputs@[h as int] == before.buffer.resolved(frame as nat, h));
                if !(was is Confirmed) && frame > 0 {
                    let earlier = (frame - 1) as nat;
                    assert(!(before.buffer.record(earlier, h) is Absent));
                    assert(match before.buffer.record(earlier, h) {
                        InputRecord::Confirmed(intent) => t[earlier as int][h as int] == intent,
                        InputRecord::Predicted(guess) => t[earlier as int][h as int] == guess
                            && guess == spec_previous(t, earlier, h),
                        InputRecord::Absent => false,
                    });
                }
            }
            assert(self.basic()) by {
                assert forall|g: int| 0 <= g < self.current implies (#[trigger] t2[g]).len()
                    == PLAYER_COUNT by {
                    if g < frame {
                        assert(t[g].len() == PLAYER_COUNT);
                    }
                }
                assert forall|g: nat|
                    base <= g < self.current + self.config.input_delay implies #[trigger] self.buffer.record(
                    g,
                    self.config.local_handle as nat,
                ) is Confirmed by {
                    assert(before.buffer.record(g, self.config.local_handle as nat) is Confirmed);
                }
                assert forall|g: nat, h: nat| g >= self.current implies !(#[trigger] self.buffer.record(
                    g,
                    h,
                ) is Predicted) by {
                    assert(!(before.buffer.record(g, h) is Predicted));
                }
                assert forall|g: nat, h: nat|
                    base <= g < self.current && h < PLAYER_COUNT implies !(#[trigger] self.buffer.record(
                    g,
                    h,
                ) is Absent) by {
                    if g < frame {
                        assert(!(before.buffer.record(g, h) is Absent));
                    }
                }
            }
            assert(self.linked(self.current as nat)) by {
                assert forall|g: nat, h: nat|
                    base <= g < self.current && h < PLAYER_COUNT implies match #[trigger] self.buffer.record(
                    g,
                    h,
                ) {
                    InputRecord::Confirmed(intent) => t2[g as int][h as int] == intent,
                    InputRecord::Predicted(guess) => t2[g as int][h as int] == guess && guess
                        == spec_previous(t2, g, h),
                    InputRecord::Absent => false,
                } by {
                    if g < frame {
                        assert(match before.buffer.record(g, h) {
                            InputRecord::Confirmed(intent) => t[g as int][h as int] == intent,
                            InputRecord::Predicted(guess) => t[g as int][h as int] == guess
                                && guess == spec_previous(t, g, h),
                            InputRecord::Absent => false,
                        });
                    }
                }
            }
            assert(self.snapshots(self.current as nat)) by {
                assert forall|g: nat| base <= g <= self.current implies #[trigger] self.buffer.stored(
                    g,
                ) == Some(spec_replay(self.start@, t2.take(g as int), self.config.sim)) by {
                    if g <= frame {
                        assert(resolved.buffer.stored(g) == before.buffer.stored(g));
                        assert(before.buffer.stored(g) == Some(
                            spec_replay(before.start@, t.take(g as int), before.config.sim),
                        ));
                        assert(t2.take(g as int) =~= t.take(g as int));
                    } else {
                        assert(t2.take(g as int) =~= t2);
                    }
                }
            }
            assert forall|g: nat, h: nat| #[trigger] self.known(g, h) == old(self).known(g, h) by {
                if h < PLAYER_COUNT && old_base <= g < base {
                    assert(before.buffer.record(g, h) is Confirmed);
                    assert(match before.buffer.record(g, h) {
                        InputRecord::Confirmed(intent) => t[g as int][h as int] == intent,
                        InputRecord::Predicted(guess) => t[g as int][h as int] == guess && guess
                            == spec_previous(t, g, h),
                        InputRecord::Absent => false,
                    });
                }
            }
        }
        Ok(())
    }

    /// Whether, after a tick that captures `local` and takes in `datagrams`, a
    /// frame would leave the window with an input still unconfirmed.
    pub open spec fn overdue_after(&self, local: InputIntent, datagrams: Seq<Datagram>) -> bool {
        self.current() >= self.config().retention_window && exists|h: nat|
            h < PLAYER_COUNT && (#[trigger] self.learned(
                local,
                datagrams,
                self.window_start(),
                h,
            )) is None
    }

    /// Runs one tick. The local input is recorded for the frame that lies the
    /// input delay ahead and handed back for sending. The datagrams are taken
    /// in, in order; those that speak of another player than the remote one or
    /// of a frame outside the window are dropped. If a confirmed input
    /// contradicts its prediction, the simulation is run again from the
    /// earliest such frame. Then the simulation advances by one frame.
    ///
    /// The scheduler stops instead of advancing when the oldest frame of a full
    /// window still lacks a confirmed input, or when the frame index is used
    /// up. A stopped scheduler does nothing.
    pub fn tick(&mut self, local: InputIntent, datagrams: &Vec<Datagram>) -> (outcome: TickOutcome)
        requires
            old(self).wf(),
        ensures
            final(self).wf(),
            final(self).config() == old(self).config(),
            final(self).start() == old(self).start(),
            final(self).world() == spec_replay(
                final(self).start(),
                final(self).timeline(),
                final(self).config().sim,
            ),
            old(self).fault() matches Some(fault) ==> {
                &&& outcome == TickOutcome::Halted(fault)
                &&& final(self).fault() == old(self).fault()
                &&& final(self).current() == old(self).current()
                &&& final(self).timeline() == old(self).timeline()
                &&& final(self).world() == old(self).world()
                &&& forall|f: nat, h: nat| #[trigger] final(self).known(f, h) == old(self).known(f, h)
            },
            old(self).fault() is None ==> {
                &&& forall|f: nat, h: nat| #[trigger]
                    final(self).known(f, h) == old(self).learned(local, datagrams@, f, h)
                &&& outcome == TickOutcome::Halted(Fault::Overrun) <==> old(self).overdue_after(
                    local,
                    datagrams@,
                )
                &&& outcome == TickOutcome::Halted(Fault::FrameLimit) <==> !old(self).overdue_after(
                    local,
                    datagrams@,
                ) && old(self).exhausted()
                &&& outcome matches TickOutcome::Halted(fault) ==> final(self).fault() == Some(fault)
                    && final(self).current() == old(self).current()
                &&& outcome matches TickOutcome::Advanced { outgoing, resimulated_from } ==> {
                    &&& final(self).fault() is None
                    &&& final(self).current() == old(self).current() + 1
                    &&& outgoing.frame == old(self).current() + old(self).config().input_delay
                    &&& outgoing.handle == old(self).config().local_handle
                    &&& outgoing.intent == local
                    &&& match resimulated_from {
                        None => final(self).timeline().take(old(self).current() as int) == old(
                            self,
                        ).timeline(),
                        Some(m) => m < old(self).current() && final(self).timeline().take(m as int)
                            == old(self).timeline().take(m as int) && final(self).timeline()[m as int]
                            != old(self).timeline()[m as int],
                    }
                }
            },
    {
        if let Some(fault) = self.fault {
            return TickOutcome::Halted(fault);
        }
        let frame = self.current;
        proof {
            self.buffer.lemma_window_fits();
        }
        let target: u32 = frame + self.config.input_delay;
        let local_handle = self.config.local_handle;
        let ghost before = *self;
        let _ = self.buffer.record_local(target, local_handle, local);
        let ghost noted = *self;
        proof {
            lemma_replay_wf(self.start@, self.timeline@, self.config.sim, PLAYER_COUNT as nat);
            assert(self.basic()) by {
                assert forall|f: nat|
                    self.buffer.base() <= f < self.current + self.config.input_delay implies #[trigger] self.buffer.record(
                    f,
                    self.config.local_handle as nat,
                ) is Confirmed by {
                    assert(before.buffer.record(f, self.config.local_handle as nat) is Confirmed);
                }
                assert forall|f: nat, h: nat| f >= self.current implies !(#[trigger] self.buffer.record(
                    f,
                    h,
                ) is Predicted) by {
                    assert(!(before.buffer.record(f, h) is Predicted));
                }
                assert forall|f: nat, h: nat|
                    self.buffer.base() <= f < self.current && h < PLAYER_COUNT implies !(
                #[trigger] self.buffer.record(f, h) is Absent) by {
                    assert(!(before.buffer.record(f, h) is Absent));
                }
            }
            assert(self.snapshots(self.current as nat)) by {
                assert forall|f: nat|
                    self.buffer.base() <= f <= self.current implies #[trigger] self.buffer.stored(f)
                    == Some(
                    spec_replay(self.start@, self.timeline@.take(f as int), self.config.sim),
                ) by {
                    assert(before.buffer.stored(f) == self.buffer.stored(f));
                }
            }
            assert(self.linked(self.current as nat)) by {
                assert forall|f: nat, h: nat|
                    self.buffer.base() <= f < self.current && h < PLAYER_COUNT implies match #[trigger] self.buffer.record(
                    f,
                    h,
                ) {
                    InputRecord::Confirmed(intent) => self.timeline@[f as int][h as int] == intent,
                    InputRecord::Predicted(guess) => self.timeline@[f as int][h as int] == guess
                        && guess == spec_previous(self.timeline@, f, h),
                    InputRecord::Absent => false,
                } by {
                    assert(match before.buffer.record(f, h) {
                        InputRecord::Confirmed(intent) => self.timeline@[f as int][h as int]
                            == intent,
                        InputRecord::Predicted(guess) => self.timeline@[f as int][h as int] == guess
                            && guess == spec_previous(self.timeline@, f, h),
                        InputRecord::Absent => false,
                    });
                }
            }
            assert(self.receiving(self.current as nat));
        }
        let dirty = self.take_in(datagrams);
        let ghost heard = *self;
        self.resimulate(dirty);
        let ghost replayed = *self;
        proof {
            assert forall|f: nat, h: nat| #[trigger]
                self.known(f, h) == before.learned(local, datagrams@, f, h) by {
                assert(replayed.known(f, h) == heard.known(f, h));
                assert(noted.buffer.record(f, h) == if f == target && h == local_handle {
                    spec_confirm(before.buffer.record(f, h), local)
                } else {
                    before.buffer.record(f, h)
                });
                assert(heard.known(f, h) == match noted.known(f, h) {
                    Some(intent) => Some(intent),
                    None => if h != noted.config.local_handle && h < PLAYER_COUNT
                        && noted.window_start() <= f < noted.window_end() {
                        spec_heard(datagrams@, f, h)
                    } else {
                        None
                    },
                });
            }
            assert(self.known(target as nat, local_handle as nat) is Some);
            assert(self.overdue() == before.overdue_after(local, datagrams@)) by {
                if self.overdue() {
                    let h = choose|h: nat|
                        h < PLAYER_COUNT && (#[trigger] self.known(self.window_start(), h)) is None;
                    assert(before.learned(local, datagrams@, before.window_start(), h) is None);
                }
                if before.overdue_after(local, datagrams@) {
                    let h = choose|h: nat|
                        h < PLAYER_COUNT && (#[trigger] before.learned(
                            local,
                            datagrams@,
                            before.window_start(),
                            h,
                        )) is None;
                    assert(self.known(self.window_start(), h) is None);
                }
            }
        }
        match self.advance_frame() {
            Ok(()) => {
                proof {
                    assert forall|f: nat, h: nat| #[trigger]
                        self.known(f, h) == before.learned(local, datagrams@, f, h) by {
                        assert(self.known(f, h) == replayed.known(f, h));
                    }
                    if dirty < frame {
                        assert(self.timeline@.take(dirty as int) =~= replayed.timeline@.take(
                            dirty as int,
                        )) by {
                            assert(self.timeline@.take(frame as int).take(dirty as int)
                                =~= self.timeline@.take(dirty as int));
                        }
                        assert(self.timeline@[dirty as int] == self.timeline@.take(
                            frame as int,
                        )[dirty as int]);
                    }
                }
                TickOutcome::Advanced {
                    outgoing: Datagram { frame: target, handle: local_handle as u8, intent: local },
                    resimulated_from: if dirty < frame {
                        Some(dirty)
                    } else {
                        None
                    },
                }
            },
            Err(fault) => {
                proof {
                    assert forall|f: nat, h: nat| #[trigger]
                        self.known(f, h) == before.learned(local, datagrams@, f, h) by {
                        assert(self.known(f, h) == replayed.known(f, h));
                    }
                }
                TickOutcome::Halted(fault)
            },
        }
    }

    /// What the invariant says of the simulation: the state is the replay of
    /// the timeline from the start, and the timeline holds for every frame and
    /// handle the confirmed input where it is known, and else repeats the frame
    /// before.
    pub proof fn lemma_world_follows(&self)
        requires
            self.wf(),
        ensures
            self.world() == spec_replay(self.start(), self.timeline(), self.config().sim),
            self.timeline().len() == self.current(),
            forall|f: int|
                0 <= f < self.current() ==> (#[trigger] self.timeline()[f]).len() == PLAYER_COUNT,
            forall|f: nat, h: nat|
                f < self.current() && h < PLAYER_COUNT ==> self.timeline()[f as int][h as int]
                    == match #[trigger] self.known(f, h) {
                    Some(intent) => intent,
                    None => spec_previous(self.timeline(), f, h),
                },
    {
        assert forall|f: nat, h: nat|
            f < self.current() && h < PLAYER_COUNT implies self.timeline()[f as int][h as int]
            == match #[trigger] self.known(f, h) {
            Some(intent) => intent,
            None => spec_previous(self.timeline(), f, h),
        } by {
            if f >= self.buffer.base() {
                assert(match self.buffer.record(f, h) {
                    InputRecord::Confirmed(intent) => self.timeline@[f as int][h as int] == intent,
                    InputRecord::Predicted(guess) => self.timeline@[f as int][h as int] == guess
                        && guess == spec_previous(self.timeline@, f, h),
                    InputRecord::Absent => false,
                });
            }
        }
    }

    proof fn lemma_same_timeline(&self, other: &RollbackScheduler, upto: nat)
        requires
            self.wf(),
            other.wf(),
            self.current() == other.current(),
            upto <= self.current(),
            forall|f: nat, h: nat|
                f < self.current() && h < PLAYER_COUNT ==> #[trigger] self.known(f, h)
                    == other.known(f, h),
        ensures
            self.timeline().take(upto as int) == other.timeline().take(upto as int),
        decreases upto,
    {
        self.lemma_world_follows();
        other.lemma_world_follows();
        if upto > 0 {
            let f = (upto - 1) as nat;
            self.lemma_same_timeline(other, f);
            let a = self.timeline();
            let b = other.timeline();
            assert(a.take(f as int) == b.take(f as int));
            assert forall|h: int| 0 <= h < PLAYER_COUNT implies a[f as int][h] == b[f as int][h] by {
                assert(self.known(f, h as nat) == other.known(f, h as nat));
                if f > 0 {
                    assert(a[f - 1] == a.take(f as int)[f - 1]);
                    assert(b[f - 1] == b.take(f as int)[f - 1]);
                }
            }
            assert(a[f as int] =~= b[f as int]);
            assert(a.take(upto as int) =~= a.take(f as int).push(a[f as int]));
            assert(b.take(upto as int) =~= b.take(f as int).push(b[f as int]));
        }
    }

    /// Rollback correctness: the simulation depends on the confirmed inputs
    /// alone, not on what was predicted on the way. Two schedulers that began
    /// in the same state with the same simulation parameters, have simulated
    /// the same number of frames and know the same confirmed inputs for them
    /// are in the same state, however many predictions either of them had to
    /// correct.
    pub proof fn lemma_same_inputs_same_world(&self, other: &RollbackScheduler)
        requires
            self.wf(),
            other.wf(),
            self.start() == other.start(),
            self.config().sim == other.config().sim,
            self.current() == other.current(),
            forall|f: nat, h: nat|
                f < self.current() && h < PLAYER_COUNT ==> #[trigger] self.known(f, h)
                    == other.known(f, h),
        ensures
            self.timeline() == other.timeline(),
            self.world() == other.world(),
    {
        self.lemma_world_follows();
        other.lemma_world_follows();
        self.lemma_same_timeline(other, self.current());
        assert(self.timeline().take(self.current() as int) =~= self.timeline());
        assert(other.timeline().take(other.current() as int) =~= other.timeline());
    }

    /// The state of the simulation now, as it is to be shown.
    pub fn state(&self) -> (state: &SimulationState)
        ensures
            state@ == self.world(),
    {
        &self.state
    }

    /// The index of the next frame to simulate.
    pub fn current_frame(&self) -> (frame: u32)
        ensures
            frame == self.current(),
    {
        self.current
    }

    /// Why the scheduler stopped, if it has.
    pub fn stopped(&self) -> (fault: Option<Fault>)
        ensures
            fault == self.fault(),
    {
        self.fault
    }
}

} // verus!
