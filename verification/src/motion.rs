//! What the motion resolver decides for one character and one tick.
//!
//! The resolver turns an input into a force and an impulse. The vector
//! arithmetic of that belongs to the caller. What is decided here is
//! whether the character jumps, which way it is turned, and which movement
//! the force has to follow.

use crate::action::trigger_at;
use crate::action::ActionState;
use crate::scalar::Scalar;
use vstd::prelude::*;

verus! {

/// Magnitude of the upward impulse of a jump: five.
pub const JUMP_IMPULSE_BITS: u32 = 0x40A0_0000;

/// Speed along the ground that full movement input asks for, and the most
/// any input can ask for: five units a second.
pub const MAX_SPEED_BITS: u32 = 0x40A0_0000;

/// The most the velocity along the ground may change by: twenty-five units
/// a second per second.
pub const MAX_ACCELERATION_BITS: u32 = 0x41C8_0000;

/// What to apply to a character for one tick.
#[derive(Clone, Copy, Debug, PartialEq, Eq)]
pub struct CharacterMotion {
    /// Magnitude of the upward impulse to add, where the character jumps.
    pub jump_impulse: Option<Scalar>,
    /// Yaw to set the character's rotation to. It replaces the rotation and
    /// is not added to it.
    pub yaw: Scalar,
    /// Sideways movement asked for, in the frame the character faces.
    pub move_x: Scalar,
    /// Forward movement asked for, in the frame the character faces.
    pub move_y: Scalar,
}

/// The motion that `action` asks for. `ground_hit` is what the ray cast
/// from the character's feet downward returned: the distance to what it
/// hit, or none where it hit nothing or could not be carried out.
pub open spec fn character_motion(
    action: ActionState,
    ground_hit: Option<Scalar>,
) -> CharacterMotion {
    CharacterMotion {
        jump_impulse: if action.jump && ground_hit is Some {
            Some(Scalar { bits: JUMP_IMPULSE_BITS })
        } else {
            None
        },
        yaw: action.facing,
        move_x: action.move_x,
        move_y: action.move_y,
    }
}

/// Decides the motion of one character for one tick. The result depends on
/// the two arguments and on nothing else, so a replayed tick decides as the
/// tick did when it first ran.
pub fn apply_character_action(action: &ActionState, ground_hit: Option<Scalar>) -> (motion:
    CharacterMotion)
    ensures
        motion == character_motion(*action, ground_hit),
{
    let jump_impulse = if action.jump && ground_hit.is_some() {
        Some(Scalar::from_bits(JUMP_IMPULSE_BITS))
    } else {
        None
    };
    CharacterMotion {
        jump_impulse,
        yaw: action.facing,
        move_x: action.move_x,
        move_y: action.move_y,
    }
}

/// A character jumps at most once per press. Let `held` be the jump control
/// tick by tick and let each input carry the trigger of its tick. While the
/// control stays held from `first` to `last`, no tick after `first` gets an
/// impulse, whatever lies under the character.
pub proof fn lemma_one_impulse_per_press(
    held: Seq<bool>,
    actions: Seq<ActionState>,
    ground_hits: Seq<Option<Scalar>>,
    first: int,
    last: int,
)
    requires
        actions.len() == held.len(),
        ground_hits.len() == held.len(),
        forall|i: int| 0 <= i < held.len() ==> actions[i].jump == trigger_at(held, i),
        0 <= first <= last < held.len(),
        forall|i: int| first <= i <= last ==> held[i],
    ensures
        forall|i: int|
            first < i <= last ==> character_motion(
                #[trigger] actions[i],
                ground_hits[i],
            ).jump_impulse is None,
{
    assert forall|i: int| first < i <= last implies character_motion(
        #[trigger] actions[i],
        ground_hits[i],
    ).jump_impulse is None by {
        assert(held[i - 1]);
        assert(!trigger_at(held, i));
    }
}

} // verus!
