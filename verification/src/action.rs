//! The input of one controlled entity for one tick.

use crate::scalar::Scalar;
use vstd::prelude::*;

verus! {

/// What a player asks of a character during one simulation tick.
///
/// The value is sampled once per tick before the tick runs and is only read
/// afterwards.
#[derive(Clone, Copy, Debug, PartialEq, Eq)]
pub struct ActionState {
    /// Sideways component of the movement axis pair.
    pub move_x: Scalar,
    /// Forward component of the movement axis pair.
    pub move_y: Scalar,
    /// Absolute yaw the character faces, in radians.
    pub facing: Scalar,
    /// Set on the tick on which the jump control went from released to held,
    /// and on no other.
    pub jump: bool,
    /// Inventory slot to equip on this tick, if any.
    pub equip: Option<u8>,
}

/// The highest inventory slot there is. Slot zero is not a slot.
pub const LAST_EQUIP_SLOT: u8 = 9;

/// The equip trigger that a slot number stands for: the slot itself where
/// it is one of the inventory's, and none for zero and for numbers past the
/// last slot.
pub open spec fn equip_trigger(slot: u8) -> Option<u8> {
    if 1 <= slot <= LAST_EQUIP_SLOT {
        Some(slot)
    } else {
        None
    }
}

/// Reads a slot number as an equip trigger.
pub fn equip_slot(slot: u8) -> (equip: Option<u8>)
    ensures
        equip == equip_trigger(slot),
{
    if slot >= 1 && slot <= LAST_EQUIP_SLOT {
        Some(slot)
    } else {
        None
    }
}

impl ActionState {
    /// The input of an entity nobody is steering: no movement, facing zero,
    /// no jump, nothing to equip.
    pub open spec fn neutral_value() -> ActionState {
        ActionState {
            move_x: Scalar::zero(),
            move_y: Scalar::zero(),
            facing: Scalar::zero(),
            jump: false,
            equip: None,
        }
    }

    /// Each movement axis is a number between minus one and one.
    pub open spec fn axes_within_unit(self) -> bool {
        self.move_x.within_unit() && self.move_y.within_unit()
    }

    pub fn neutral() -> (a: ActionState)
        ensures
            a == ActionState::neutral_value(),
    {
        ActionState {
            move_x: Scalar::from_bits(0),
            move_y: Scalar::from_bits(0),
            facing: Scalar::from_bits(0),
            jump: false,
            equip: None,
        }
    }

    pub fn has_axes_within_unit(&self) -> (r: bool)
        ensures
            r == self.axes_within_unit(),
    {
        self.move_x.is_within_unit() && self.move_y.is_within_unit()
    }
}

/// The controls of a character, one for each part of its input.
#[derive(Clone, Copy, Debug, PartialEq, Eq, Hash, Structural)]
pub enum CharacterAction {
    /// The movement axis pair.
    Move,
    /// The jump control.
    Jump,
    /// The facing angle.
    Rotate,
    /// The equip slot.
    Equip,
}

/// How a control is read from the device it is bound to.
#[derive(Clone, Copy, Debug, PartialEq, Eq, Hash, Structural)]
pub enum InputControlKind {
    /// Held or released.
    Button,
    /// One value.
    Axis,
    /// Two values.
    DualAxis,
}

impl CharacterAction {
    /// Movement is a pair of axes, jumping a button, and the facing angle
    /// and the equip slot one value each.
    pub open spec fn control_kind(self) -> InputControlKind {
        match self {
            CharacterAction::Move => InputControlKind::DualAxis,
            CharacterAction::Jump => InputControlKind::Button,
            CharacterAction::Rotate => InputControlKind::Axis,
            CharacterAction::Equip => InputControlKind::Axis,
        }
    }

    pub fn input_control_kind(&self) -> (kind: InputControlKind)
        ensures
            kind == self.control_kind(),
    {
        match self {
            CharacterAction::Move => InputControlKind::DualAxis,
            CharacterAction::Jump => InputControlKind::Button,
            CharacterAction::Rotate => InputControlKind::Axis,
            CharacterAction::Equip => InputControlKind::Axis,
        }
    }
}

/// Whether a control that was `was_held` on the previous tick and is
/// `is_held` on this one has just gone from released to held.
pub open spec fn is_rising_edge(was_held: bool, is_held: bool) -> bool {
    is_held && !was_held
}

/// The trigger at position `i` of a run of per-tick samples of one control.
/// Before the first sample the control counts as released.
pub open spec fn trigger_at(held: Seq<bool>, i: int) -> bool {
    is_rising_edge(
        if i > 0 {
            held[i - 1]
        } else {
            false
        },
        held[i],
    )
}

pub fn rising_edge(was_held: bool, is_held: bool) -> (edge: bool)
    ensures
        edge == is_rising_edge(was_held, is_held),
{
    is_held && !was_held
}

/// While a control stays held over consecutive ticks, only the first of
/// those ticks can carry its trigger: none of the later ones does.
pub proof fn lemma_steady_hold_triggers_once(held: Seq<bool>, first: int, last: int)
    requires
        0 <= first <= last < held.len(),
        forall|i: int| first <= i <= last ==> held[i],
    ensures
        forall|i: int| first < i <= last ==> !trigger_at(held, i),
        forall|i: int, j: int|
            first <= i <= last && first <= j <= last && trigger_at(held, i) && trigger_at(held, j)
                ==> i == j,
{
    assert forall|i: int| first < i <= last implies !trigger_at(held, i) by {
        assert(held[i - 1]);
    }
}

} // verus!
