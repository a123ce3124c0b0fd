use reclipsis::action::rising_edge;
use reclipsis::action::ActionState;
use reclipsis::motion::apply_character_action;
use reclipsis::motion::JUMP_IMPULSE_BITS;
use reclipsis::motion::MAX_ACCELERATION_BITS;
use reclipsis::motion::MAX_SPEED_BITS;
use reclipsis::scalar::Scalar;

fn scalar(value: f32) -> Scalar {
    Scalar::from_bits(value.to_bits())
}

fn input(x: f32, y: f32, facing: f32, jump: bool) -> ActionState {
    ActionState { move_x: scalar(x), move_y: scalar(y), facing: scalar(facing), jump, equip: None }
}

#[test]
fn the_jump_impulse_is_five() {
    assert_eq!(f32::from_bits(JUMP_IMPULSE_BITS), 5.0);
}

#[test]
fn the_caps_on_speed_and_acceleration() {
    assert_eq!(f32::from_bits(MAX_SPEED_BITS), 5.0);
    assert_eq!(f32::from_bits(MAX_ACCELERATION_BITS), 25.0);
}

#[test]
fn forward_and_jump_from_rest_on_the_ground() {
    // One tick of a sixtieth of a second: the character stands on the
    // ground, the player pushes forward and has just pressed jump.
    let action = input(0.0, 1.0, 0.0, true);
    let ground = Some(scalar(0.004));
    let motion = apply_character_action(&action, ground);
    assert_eq!(motion.jump_impulse.map(|i| f32::from_bits(i.to_bits())), Some(5.0));
    assert_eq!(f32::from_bits(motion.yaw.to_bits()), 0.0);
    assert_eq!(f32::from_bits(motion.move_x.to_bits()), 0.0);
    assert_eq!(f32::from_bits(motion.move_y.to_bits()), 1.0);
    // The control is still held on the next tick: no second impulse.
    let held = input(0.0, 1.0, 0.0, rising_edge(true, true));
    let next = apply_character_action(&held, ground);
    assert_eq!(next.jump_impulse, None);
    assert_eq!(f32::from_bits(next.move_y.to_bits()), 1.0);
}

#[test]
fn no_ground_no_jump() {
    let action = input(0.0, 0.0, 0.0, true);
    assert_eq!(apply_character_action(&action, None).jump_impulse, None);
}

#[test]
fn no_trigger_no_jump() {
    let action = input(0.0, 0.0, 0.0, false);
    assert_eq!(apply_character_action(&action, Some(scalar(0.0))).jump_impulse, None);
    assert_eq!(apply_character_action(&action, None).jump_impulse, None);
}

#[test]
fn whatever_the_ray_hit_counts_as_ground() {
    let action = input(0.0, 0.0, 0.0, true);
    for distance in [0.0f32, 0.01, -0.0, f32::NAN] {
        let motion = apply_character_action(&action, Some(scalar(distance)));
        assert_eq!(motion.jump_impulse, Some(Scalar::from_bits(JUMP_IMPULSE_BITS)));
    }
}

#[test]
fn the_yaw_is_the_facing_of_the_input_and_the_movement_its_axes() {
    let action = input(-0.25, 0.75, 2.5, false);
    let motion = apply_character_action(&action, None);
    assert_eq!(motion.yaw, scalar(2.5));
    assert_eq!(motion.move_x, scalar(-0.25));
    assert_eq!(motion.move_y, scalar(0.75));
}

#[test]
fn the_neutral_input_asks_for_rest() {
    let motion = apply_character_action(&ActionState::neutral(), Some(scalar(0.0)));
    assert_eq!(motion.jump_impulse, None);
    assert_eq!(motion.yaw.to_bits(), 0);
    assert_eq!(motion.move_x.to_bits(), 0);
    assert_eq!(motion.move_y.to_bits(), 0);
}

#[test]
fn the_same_input_decides_the_same_motion() {
    let action = input(0.5, -0.5, 1.0, true);
    let first = apply_character_action(&action, Some(scalar(0.002)));
    let second = apply_character_action(&action, Some(scalar(0.002)));
    assert_eq!(first, second);
}

#[test]
fn a_long_press_jumps_once() {
    let held = [false, true, true, true, true, false, false, true, true];
    let mut before = false;
    let mut impulses = 0;
    let mut at = Vec::new();
    for (tick, now) in held.iter().enumerate() {
        let action = input(0.0, 0.0, 0.0, rising_edge(before, *now));
        if apply_character_action(&action, Some(scalar(0.0))).jump_impulse.is_some() {
            impulses += 1;
            at.push(tick);
        }
        before = *now;
    }
    assert_eq!(impulses, 2);
    assert_eq!(at, vec![1, 7]);
}
