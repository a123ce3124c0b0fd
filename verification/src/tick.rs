//! Ticks, in full and as they travel.
//!
//! A tick numbers one fixed step of the simulation. This crate counts ticks
//! in 64 bits, where they never run out. Between machines a tick travels as
//! its low 16 bits, and the receiver restores the rest from a tick it knows
//! to be near.

use vstd::prelude::*;

verus! {

/// Simulation steps per second.
pub const FIXED_TIMESTEP_HZ: u32 = 60;

/// How many ticks one round of the 16-bit tick circle holds.
pub const WIRE_TICKS: u64 = 0x1_0000;

/// The 16 bits a tick travels as.
pub open spec fn wire_of(tick: u64) -> u16 {
    (tick % WIRE_TICKS) as u16
}

/// How far, with sign, the wire tick `wire` lies from the wire tick `near`
/// when the shorter way round the circle is taken: from 32768 ticks back to
/// 32767 ticks ahead.
pub open spec fn wire_offset(near: u16, wire: u16) -> int {
    let ahead = if wire >= near {
        wire - near
    } else {
        wire - near + WIRE_TICKS
    };
    if ahead < 0x8000 {
        ahead
    } else {
        ahead - WIRE_TICKS
    }
}

/// The tick that travels as `wire` and lies nearest to `reference`. Where
/// that tick would lie before tick zero or after the last tick there is, it
/// is the nearest one on the other side of `reference`.
pub open spec fn tick_near(reference: u64, wire: u16) -> u64 {
    let nearest = reference + wire_offset(wire_of(reference), wire);
    if nearest < 0 {
        (nearest + WIRE_TICKS) as u64
    } else if nearest > u64::MAX {
        (nearest - WIRE_TICKS) as u64
    } else {
        nearest as u64
    }
}

/// Reduces a tick to the 16 bits it travels as.
pub fn to_wire(tick: u64) -> (wire: u16)
    ensures
        wire == wire_of(tick),
{
    (tick % WIRE_TICKS) as u16
}

/// Restores a tick from the 16 bits it travelled as and a tick known to be
/// near it.
pub fn from_wire(reference: u64, wire: u16) -> (tick: u64)
    ensures
        tick == tick_near(reference, wire),
{
    let near = to_wire(reference);
    if wire >= near {
        let ahead = (wire - near) as u64;
        if ahead < 0x8000 {
            if reference <= u64::MAX - ahead {
                reference + ahead
            } else {
                reference - (WIRE_TICKS - ahead)
            }
        } else {
            let back = WIRE_TICKS - ahead;
            if reference >= back {
                reference - back
            } else {
                reference + ahead
            }
        }
    } else {
        let back = (near - wire) as u64;
        if back <= 0x8000 {
            if reference >= back {
                reference - back
            } else {
                reference + (WIRE_TICKS - back)
            }
        } else {
            let ahead = WIRE_TICKS - back;
            if reference <= u64::MAX - ahead {
                reference + ahead
            } else {
                reference - back
            }
        }
    }
}

/// What `tick_near` returns travels as `wire`, and it is the tick nearest
/// to `reference` that does: where it lies within reach, no more than
/// 32768 ticks back and no more than 32767 ticks ahead.
pub proof fn lemma_tick_near_is_nearest(reference: u64, wire: u16)
    ensures
        wire_of(tick_near(reference, wire)) == wire,
        0x8000 <= reference <= u64::MAX - 0x8000 ==> -0x8000 <= tick_near(reference, wire)
            - reference < 0x8000,
{
}

/// A tick that lies within reach of `reference` is restored from its wire
/// form: sending a tick and restoring it near a tick less than half a
/// circle away gives the tick back.
pub proof fn lemma_wire_round_trip(reference: u64, tick: u64)
    requires
        -0x8000 <= tick - reference < 0x8000,
    ensures
        tick_near(reference, wire_of(tick)) == tick,
{
}

} // verus!
