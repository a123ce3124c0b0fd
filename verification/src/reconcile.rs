//! The reconciliation controller of a predicting client.
//!
//! The client simulates ahead of the server. When the server's state for a
//! tick the client has already simulated lies too far from what the client
//! had for that tick, the client takes the server's state for that tick and
//! runs the ticks after it again, up to the tick it had reached.
//!
//! The controller holds where the simulation stands and decides. Measuring
//! how far two states lie apart, and stepping a state forward, is the
//! caller's part.

use crate::action::ActionState;
use crate::driver::input_at;
use crate::driver::replay_inputs;
use crate::driver::replay_plan;
use crate::driver::TickInput;
use crate::history::InputHistory;
use crate::scalar::Scalar;
use crate::state::PhysicalState;
use vstd::prelude::*;

verus! {

/// Smallest distance between two positions that calls for a rollback: a
/// hundredth of a world unit.
pub const POSITION_ROLLBACK_THRESHOLD_BITS: u32 = 0x3C23_D70A;

/// Smallest angle between two rotations that calls for a rollback: a
/// hundredth of a radian.
pub const ROTATION_ROLLBACK_THRESHOLD_BITS: u32 = 0x3C23_D70A;

/// The server's state of an entity at a tick.
#[derive(Clone, Copy, Debug, PartialEq, Eq, Structural)]
pub struct Snapshot {
    pub tick: u64,
    pub state: PhysicalState,
}

/// What the controller is doing.
#[derive(Clone, Copy, Debug, PartialEq, Eq, Structural)]
pub enum Phase {
    /// Simulating forward, one new tick per frame.
    Predicting,
    /// Running again the ticks between a corrected tick and the present.
    Replaying,
}

/// Two positions lie `separation` apart: far enough for a rollback?
pub open spec fn position_diverges(separation: Scalar) -> bool {
    separation.at_least(Scalar { bits: POSITION_ROLLBACK_THRESHOLD_BITS })
}

/// Two rotations lie `angle` apart: far enough for a rollback?
pub open spec fn rotation_diverges(angle: Scalar) -> bool {
    angle.at_least(Scalar { bits: ROTATION_ROLLBACK_THRESHOLD_BITS })
}

/// Whether a predicted position that lies `separation` from the server's
/// has to be rolled back. A separation that is not a number never does.
pub fn position_should_rollback(separation: &Scalar) -> (r: bool)
    ensures
        r == position_diverges(*separation),
{
    separation.ge(&Scalar::from_bits(POSITION_ROLLBACK_THRESHOLD_BITS))
}

/// Whether a predicted rotation that lies `angle` from the server's has to
/// be rolled back. An angle that is not a number never does.
pub fn rotation_should_rollback(angle: &Scalar) -> (r: bool)
    ensures
        r == rotation_diverges(*angle),
{
    angle.ge(&Scalar::from_bits(ROTATION_ROLLBACK_THRESHOLD_BITS))
}

/// Where the simulation of one predicted entity stands.
#[derive(Clone, Copy, Debug, PartialEq, Eq, Structural)]
pub struct Reconciler {
    tick: u64,
    present: u64,
    state: PhysicalState,
}

impl Reconciler {
    /// The tick the held state belongs to.
    pub closed spec fn simulated_tick(&self) -> u64 {
        self.tick
    }

    /// The newest tick the client has simulated so far.
    pub closed spec fn present_tick(&self) -> u64 {
        self.present
    }

    /// The state of the entity at `simulated_tick`.
    pub closed spec fn held_state(&self) -> PhysicalState {
        self.state
    }

    /// The held state is never ahead of the present.
    pub closed spec fn wf(&self) -> bool {
        self.tick <= self.present
    }

    /// Replaying while the held state is behind the present.
    pub open spec fn phase_of(&self) -> Phase {
        if self.simulated_tick() < self.present_tick() {
            Phase::Replaying
        } else {
            Phase::Predicting
        }
    }

    /// Whether `snapshot` makes this controller roll back: it is for a tick
    /// the client has simulated, and position or rotation lies too far off.
    pub open spec fn must_roll_back(
        &self,
        snapshot: Snapshot,
        position_separation: Scalar,
        rotation_angle: Scalar,
    ) -> bool {
        snapshot.tick <= self.present_tick() && (position_diverges(position_separation)
            || rotation_diverges(rotation_angle))
    }

    /// The controller after the snapshot was taken over.
    pub closed spec fn rolled_back(&self, snapshot: Snapshot) -> Reconciler {
        Reconciler { tick: snapshot.tick, present: self.present, state: snapshot.state }
    }

    /// The controller after the tick that follows `simulated_tick` was run
    /// and ended in `state`.
    pub closed spec fn advanced(&self, state: PhysicalState) -> Reconciler {
        Reconciler {
            tick: (self.tick + 1) as u64,
            present: if self.tick + 1 > self.present {
                (self.tick + 1) as u64
            } else {
                self.present
            },
            state,
        }
    }

    /// The controller after one tick was run for each of `states`, in order.
    pub closed spec fn advanced_through(&self, states: Seq<PhysicalState>) -> Reconciler
        decreases states.len(),
    {
        if states.len() == 0 {
            *self
        } else {
            self.advanced_through(states.drop_last()).advanced(states.last())
        }
    }

    /// A controller that has simulated up to `tick` and holds `state`.
    pub fn new(tick: u64, state: PhysicalState) -> (r: Reconciler)
        ensures
            r.wf(),
            r.simulated_tick() == tick,
            r.present_tick() == tick,
            r.held_state() == state,
            r.phase_of() == Phase::Predicting,
    {
        Reconciler { tick, present: tick, state }
    }

    pub fn tick(&self) -> (t: u64)
        ensures
            t == self.simulated_tick(),
    {
        self.tick
    }

    pub fn present(&self) -> (t: u64)
        ensures
            t == self.present_tick(),
    {
        self.present
    }

    pub fn state(&self) -> (s: PhysicalState)
        ensures
            s == self.held_state(),
    {
        self.state
    }

    pub fn phase(&self) -> (p: Phase)
        ensures
            p == self.phase_of(),
    {
        if self.tick < self.present {
            Phase::Replaying
        } else {
            Phase::Predicting
        }
    }

    /// Takes in a snapshot from the server. `position_separation` and
    /// `rotation_angle` say how far the snapshot lies from what the client
    /// had for the snapshot's tick.
    ///
    /// Where the snapshot makes the controller roll back, the held state
    /// becomes the snapshot's, at the snapshot's tick, and the present
    /// stays: the ticks in between are to be run again. Otherwise nothing
    /// changes.
    pub fn on_snapshot(
        &mut self,
        snapshot: &Snapshot,
        position_separation: &Scalar,
        rotation_angle: &Scalar,
    ) -> (rolled_back: bool)
        requires
            old(self).wf(),
        ensures
            final(self).wf(),
            rolled_back == old(self).must_roll_back(
                *snapshot,
                *position_separation,
                *rotation_angle,
            ),
            rolled_back ==> *final(self) == old(self).rolled_back(*snapshot),
            rolled_back ==> {
                &&& final(self).held_state() == snapshot.state
                &&& final(self).simulated_tick() == snapshot.tick
                &&& final(self).present_tick() == old(self).present_tick()
            },
            !rolled_back ==> *final(self) == *old(self),
    {
        if snapshot.tick > self.present {
            return false;
        }
        let position = position_should_rollback(position_separation);
        let rotation = rotation_should_rollback(rotation_angle);
        if position || rotation {
            self.tick = snapshot.tick;
            self.state = snapshot.state;
            true
        } else {
            false
        }
    }

    /// Takes in the state that running the tick after `simulated_tick`
    /// ended in. While replaying this moves toward the present; while
    /// predicting it moves the present on by one tick.
    pub fn advance(&mut self, state: PhysicalState)
        requires
            old(self).wf(),
            old(self).simulated_tick() < u64::MAX,
        ensures
            final(self).wf(),
            *final(self) == old(self).advanced(state),
            final(self).held_state() == state,
            final(self).simulated_tick() == old(self).simulated_tick() + 1,
            final(self).present_tick() == if old(self).phase_of() == Phase::Replaying {
                old(self).present_tick()
            } else {
                (old(self).present_tick() + 1) as u64
            },
    {
        self.tick = self.tick + 1;
        if self.tick > self.present {
            self.present = self.tick;
        }
        self.state = state;
    }

    /// The ticks still to be run to reach the present, each with the input
    /// it runs on. Empty while predicting.
    pub fn pending_inputs(&self, history: &InputHistory) -> (plan: Vec<TickInput>)
        requires
            self.wf(),
            history.wf(),
            self.present_tick() - self.simulated_tick() <= usize::MAX,
        ensures
            plan@ == replay_plan(history@, self.simulated_tick(), self.present_tick()),
    {
        replay_inputs(history, self.tick, self.present)
    }

    /// Running `n` ticks moves the held state `n` ticks on and leaves a
    /// present that was not reached where it was.
    proof fn lemma_advanced_through(&self, states: Seq<PhysicalState>)
        requires
            self.wf(),
            self.tick + states.len() <= self.present,
        ensures
            self.advanced_through(states).tick == self.tick + states.len(),
            self.advanced_through(states).present == self.present,
            states.len() > 0 ==> self.advanced_through(states).state == states.last(),
        decreases states.len(),
    {
        if states.len() > 0 {
            self.lemma_advanced_through(states.drop_last());
        }
    }

    /// A rollback ends where the client stood. After the snapshot was taken
    /// over, the controller holds exactly the snapshot's state at the
    /// snapshot's tick. The ticks still to run are those after the
    /// snapshot's up to the present, each once and in order, each on the
    /// input the history has for it. Each tick run moves the controller one
    /// tick on: while fewer were run than lie between the snapshot and the
    /// present it is replaying, and the tick to run next is the next of the
    /// plan; once all were run it is predicting again, at the present, and
    /// holds the state the last of them ended in.
    pub proof fn lemma_rollback_converges(
        &self,
        snapshot: Snapshot,
        position_separation: Scalar,
        rotation_angle: Scalar,
        entries: Map<int, ActionState>,
        states: Seq<PhysicalState>,
    )
        requires
            self.wf(),
            self.must_roll_back(snapshot, position_separation, rotation_angle),
            states.len() == self.present_tick() - snapshot.tick,
        ensures
            self.rolled_back(snapshot).held_state() == snapshot.state,
            self.rolled_back(snapshot).simulated_tick() == snapshot.tick,
            self.rolled_back(snapshot).present_tick() == self.present_tick(),
            replay_plan(entries, snapshot.tick, self.present_tick()).len() == states.len(),
            forall|n: int|
                0 <= n < states.len() ==> {
                    let partway = #[trigger] self.rolled_back(snapshot).advanced_through(
                        states.take(n),
                    );
                    let next = replay_plan(entries, snapshot.tick, self.present_tick())[n];
                    &&& partway.phase_of() == Phase::Replaying
                    &&& partway.simulated_tick() == snapshot.tick + n
                    &&& partway.present_tick() == self.present_tick()
                    &&& next.tick == partway.simulated_tick() + 1
                    &&& next.action == input_at(entries, snapshot.tick + n + 1)
                },
            self.rolled_back(snapshot).advanced_through(states).phase_of() == Phase::Predicting,
            self.rolled_back(snapshot).advanced_through(states).simulated_tick()
                == self.present_tick(),
            self.rolled_back(snapshot).advanced_through(states).present_tick()
                == self.present_tick(),
            states.len() > 0 ==> self.rolled_back(snapshot).advanced_through(states).held_state()
                == states.last(),
    {
        let start = self.rolled_back(snapshot);
        assert forall|n: int| 0 <= n < states.len() implies {
            let partway = #[trigger] start.advanced_through(states.take(n));
            let next = replay_plan(entries, snapshot.tick, self.present_tick())[n];
            &&& partway.phase_of() == Phase::Replaying
            &&& partway.simulated_tick() == snapshot.tick + n
            &&& partway.present_tick() == self.present_tick()
            &&& next.tick == partway.simulated_tick() + 1
            &&& next.action == input_at(entries, snapshot.tick + n + 1)
        } by {
            start.lemma_advanced_through(states.take(n));
        }
        start.lemma_advanced_through(states);
    }
}

} // verus!
