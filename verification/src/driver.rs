//! Which input a tick runs on.
//!
//! A tick runs on the input recorded for it. Where none was recorded, it
//! runs on the newest input recorded before it, and where there is none of
//! those either, on the neutral input. The same choice is made when a tick
//! runs for the first time and when it is run again after a correction.

use crate::action::ActionState;
use crate::history::latest_at;
use crate::history::lemma_trim_keeps_later_lookups;
use crate::history::trimmed;
use crate::history::InputHistory;
use crate::state::InvariantViolation;
use crate::state::PhysicalState;
use vstd::prelude::*;

verus! {

/// One tick of a replay, with the input it runs on.
#[derive(Clone, Copy, Debug, PartialEq, Eq)]
pub struct TickInput {
    pub tick: u64,
    pub action: ActionState,
}

/// What to do with an entity on a tick.
#[derive(Clone, Copy, Debug, PartialEq, Eq)]
pub enum TickDecision {
    /// Run the motion resolver and the physics step on this input.
    Simulate(ActionState),
    /// The entity's state is broken: stop simulating it and report why.
    Halt(InvariantViolation),
}

/// The input that `tick` runs on, given what was recorded.
pub open spec fn input_at(entries: Map<int, ActionState>, tick: int) -> ActionState {
    match latest_at(entries, tick) {
        Some(action) => action,
        None => ActionState::neutral_value(),
    }
}

/// The ticks after `from` up to `to`, in order, each with its input.
pub open spec fn replay_plan(entries: Map<int, ActionState>, from: u64, to: u64) -> Seq<TickInput> {
    Seq::new(
        if to > from {
            (to - from) as nat
        } else {
            0
        },
        |i: int| TickInput { tick: (from + 1 + i) as u64, action: input_at(entries, from + 1 + i) },
    )
}

/// The state reached from `start` by running `step` once on each input of
/// `plan`, in order.
pub open spec fn replayed<S>(step: spec_fn(S, TickInput) -> S, start: S, plan: Seq<TickInput>) -> S
    decreases plan.len(),
{
    if plan.len() == 0 {
        start
    } else {
        step(replayed(step, start, plan.drop_last()), plan.last())
    }
}

/// The input that `tick` runs on.
pub fn input_for_tick(history: &InputHistory, tick: u64) -> (action: ActionState)
    requires
        history.wf(),
    ensures
        action == input_at(history@, tick as int),
{
    match history.lookup(tick) {
        Some(action) => action,
        None => ActionState::neutral(),
    }
}

/// Decides what to do with an entity on `tick`. A state that violates an
/// invariant halts the entity, whatever its input; every other state is
/// simulated on the input of the tick.
pub fn begin_tick(history: &InputHistory, tick: u64, state: &PhysicalState) -> (decision:
    TickDecision)
    requires
        history.wf(),
    ensures
        decision == match state.violation() {
            Some(v) => TickDecision::Halt(v),
            None => TickDecision::Simulate(input_at(history@, tick as int)),
        },
{
    match state.check() {
        Err(v) => TickDecision::Halt(v),
        Ok(_) => TickDecision::Simulate(input_for_tick(history, tick)),
    }
}

/// The ticks to run again after the state of tick `from` was corrected, up
/// to tick `to`: each tick after `from` once and in order, with the input
/// it runs on. Empty where `to` is not after `from`.
pub fn replay_inputs(history: &InputHistory, from: u64, to: u64) -> (plan: Vec<TickInput>)
    requires
        history.wf(),
        to - from <= usize::MAX,
    ensures
        plan@ == replay_plan(history@, from, to),
{
    let mut plan: Vec<TickInput> = Vec::new();
    if to <= from {
        assert(plan@ =~= replay_plan(history@, from, to));
        return plan;
    }
    let mut tick: u64 = from;
    while tick < to
        invariant
            history.wf(),
            from <= tick <= to,
            plan@.len() == tick - from,
            forall|i: int|
                0 <= i < plan@.len() ==> plan@[i] == replay_plan(history@, from, to)[i],
        decreases to - tick,
    {
        tick = tick + 1;
        let action = input_for_tick(history, tick);
        plan.push(TickInput { tick, action });
    }
    assert(plan@ =~= replay_plan(history@, from, to));
    plan
}

/// A replay runs every tick after `from` up to `to` exactly once, and in
/// order: none is skipped and none is run twice.
pub proof fn lemma_replay_runs_each_tick_once(entries: Map<int, ActionState>, from: u64, to: u64)
    requires
        from <= to,
    ensures
        replay_plan(entries, from, to).len() == to - from,
        forall|i: int|
            0 <= i < to - from ==> (#[trigger] replay_plan(entries, from, to)[i]).tick == from + 1
                + i,
        forall|t: int|
            from < t <= to ==> (#[trigger] replay_plan(entries, from, to)[t - from - 1]).tick == t,
        forall|i: int, j: int|
            0 <= i < to - from && 0 <= j < to - from && replay_plan(entries, from, to)[i].tick
                == replay_plan(entries, from, to)[j].tick ==> i == j,
{
}

/// A replay is determined by what lookups return on the ticks it runs. Two
/// histories that answer alike on every tick after `from` up to `to` give
/// the same plan, and the same plan run by the same step from the same
/// state ends in the same state.
pub proof fn lemma_replay_is_deterministic<S>(
    one: Map<int, ActionState>,
    other: Map<int, ActionState>,
    from: u64,
    to: u64,
    step: spec_fn(S, TickInput) -> S,
    start: S,
)
    requires
        forall|t: int| from < t <= to ==> latest_at(one, t) == latest_at(other, t),
    ensures
        replay_plan(one, from, to) == replay_plan(other, from, to),
        replayed(step, start, replay_plan(one, from, to)) == replayed(
            step,
            start,
            replay_plan(other, from, to),
        ),
{
    assert(replay_plan(one, from, to) =~= replay_plan(other, from, to));
}

/// Forgetting the inputs before `floor` does not change a replay that
/// starts at or after the tick before `floor`.
pub proof fn lemma_replay_survives_forgetting(
    entries: Map<int, ActionState>,
    floor: int,
    from: u64,
    to: u64,
)
    requires
        floor <= from + 1,
    ensures
        replay_plan(trimmed(entries, floor), from, to) == replay_plan(entries, from, to),
{
    assert forall|t: int| from < t <= to implies latest_at(trimmed(entries, floor), t) == latest_at(
        entries,
        t,
    ) by {
        lemma_trim_keeps_later_lookups(entries, floor, t);
    }
    assert(replay_plan(trimmed(entries, floor), from, to) =~= replay_plan(entries, from, to));
}

} // verus!
