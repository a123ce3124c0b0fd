//! The tick-indexed input window of `lightyear`, and what this crate takes
//! for granted when it calls into it.
//!
//! Nothing in this file is proved. Each function below makes one call into
//! `lightyear`'s `InputBuffer` and states, over the two names `window_start`
//! and `window_slots`, what the source of that method does. The window
//! counts ticks on a 16-bit circle; the contracts are stated only for
//! windows and ticks for which that arithmetic cannot wrap the wrong way.

use crate::action::ActionState;
use crate::tick::WIRE_TICKS;
use lightyear::input::input_buffer::InputBuffer;
use lightyear::input::input_buffer::InputData;
use lightyear::prelude::Tick;
use vstd::prelude::*;

verus! {

/// `lightyear::input::input_buffer::InputBuffer`, opaque to the verifier.
#[verifier::external_type_specification]
#[verifier::external_body]
#[verifier::reject_recursive_types(T)]
pub struct ExInputBuffer<T>(InputBuffer<T>);

/// What one slot of the window holds, as `InputData` has it: nothing, the
/// same as the slot before it, or an input of its own.
#[derive(Clone, Copy, Debug, PartialEq, Eq)]
pub enum Slot {
    Absent,
    Repeat,
    Input(ActionState),
}

/// The longest window the contracts below speak of.
pub const MAX_SLOTS: u16 = 32767;

/// The window's `start_tick`: the tick of its first slot, once it has one.
pub uninterp spec fn window_start(b: InputBuffer<ActionState>) -> Option<u16>;

/// The window's `buffer`, front first: one slot per tick from the start tick
/// on.
pub uninterp spec fn window_slots(b: InputBuffer<ActionState>) -> Seq<Slot>;

/// How many ticks lie from `start` forward to `tick` on the tick circle.
pub open spec fn ticks_after(start: u16, tick: u16) -> int {
    if tick >= start {
        tick - start
    } else {
        tick - start + WIRE_TICKS
    }
}

/// The tick that lies `n` ticks after `start` on the tick circle.
pub open spec fn tick_plus(start: u16, n: int) -> int {
    (start + n) % (WIRE_TICKS as int)
}

/// The input that slot `i` stands for: its own, or that of the nearest slot
/// before it that is not a repeat. Outside the window there is none.
pub open spec fn slot_value(slots: Seq<Slot>, i: int) -> Option<ActionState>
    decreases i + 1,
{
    if i < 0 || i >= slots.len() {
        None
    } else {
        match slots[i] {
            Slot::Absent => None,
            Slot::Input(a) => Some(a),
            Slot::Repeat => slot_value(slots, i - 1),
        }
    }
}

/// The slots after `slot` was set at offset `at`: written in place inside
/// the window, else appended behind as many repeats as the gap is long.
pub open spec fn slots_with(slots: Seq<Slot>, at: int, slot: Slot) -> Seq<Slot> {
    if at < slots.len() {
        slots.update(at, slot)
    } else {
        slots + Seq::new((at - slots.len()) as nat, |i: int| Slot::Repeat) + seq![slot]
    }
}

/// The slots that remain when those up to offset `through` leave the front.
/// A repeat that thereby comes to the front is replaced by what it stood
/// for.
pub open spec fn slots_after_drop(slots: Seq<Slot>, through: int) -> Seq<Slot> {
    let rest = slots.subrange(through + 1, slots.len() as int);
    if rest.len() > 0 && rest[0] is Repeat {
        rest.update(
            0,
            match slot_value(slots, through) {
                Some(a) => Slot::Input(a),
                None => Slot::Absent,
            },
        )
    } else {
        rest
    }
}

/// `InputBuffer::default`: a window without a start tick and without slots.
#[verifier::external_body]
pub(crate) fn window_new() -> (b: InputBuffer<ActionState>)
    ensures
        window_start(b) is None,
        window_slots(b) == Seq::<Slot>::empty(),
{
    InputBuffer::default()
}

/// `InputBuffer::set_raw`. A window without a start tick starts at `tick`
/// and gets the slot as a new last slot. Otherwise the slot of `tick` is
/// overwritten, or the window grows up to `tick` with repeats in between.
/// Ticks before the start, and ticks so far ahead that the window would
/// outgrow half the tick circle, are left out.
#[verifier::external_body]
pub(crate) fn window_set(b: &mut InputBuffer<ActionState>, tick: u16, slot: Slot)
    requires
        window_slots(*old(b)).len() < MAX_SLOTS,
        window_start(*old(b)) matches Some(s) ==> ticks_after(s, tick) < MAX_SLOTS,
    ensures
        window_start(*old(b)) is None ==> window_start(*final(b)) == Some(tick) && window_slots(
            *final(b),
        ) == window_slots(*old(b)).push(slot),
        window_start(*old(b)) matches Some(s) ==> window_start(*final(b)) == Some(s)
            && window_slots(*final(b)) == slots_with(
            window_slots(*old(b)),
            ticks_after(s, tick),
            slot,
        ),
{
    let data = match slot {
        Slot::Absent => InputData::Absent,
        Slot::Repeat => InputData::SameAsPrecedent,
        Slot::Input(action) => InputData::Input(action),
    };
    b.set_raw(Tick(tick), data);
}

/// `InputBuffer::extend_to_range` with both ends at `tick`, for a tick
/// before the start of the window: the window then starts at `tick`, with
/// one new empty slot in front for each tick from `tick` up to the old
/// start.
#[verifier::external_body]
pub(crate) fn window_extend_front(b: &mut InputBuffer<ActionState>, tick: u16)
    requires
        window_start(*old(b)) matches Some(s) && 1 <= ticks_after(tick, s) && window_slots(
            *old(b),
        ).len() + ticks_after(tick, s) <= MAX_SLOTS,
    ensures
        window_start(*final(b)) == Some(tick),
        window_slots(*final(b)) == Seq::new(
            ticks_after(tick, window_start(*old(b))->0) as nat,
            |i: int| Slot::Absent,
        ) + window_slots(*old(b)),
{
    b.extend_to_range(Tick(tick), Tick(tick));
}

/// `InputBuffer::get`: the input that the slot of `tick` stands for, and
/// none for a tick outside the window.
#[verifier::external_body]
pub(crate) fn window_get(b: &InputBuffer<ActionState>, tick: u16) -> (r: Option<ActionState>)
    requires
        window_slots(*b).len() <= MAX_SLOTS,
    ensures
        r == match window_start(*b) {
            Some(s) => slot_value(window_slots(*b), ticks_after(s, tick)),
            None => None,
        },
{
    b.get(Tick(tick)).copied()
}

/// `InputBuffer::get_last_with_tick`, of which the input is kept: the input
/// that the last slot stands for; none where the window has no start tick,
/// is empty, or that slot stands for nothing.
#[verifier::external_body]
pub(crate) fn window_last(b: &InputBuffer<ActionState>) -> (r: Option<ActionState>)
    requires
        window_slots(*b).len() <= MAX_SLOTS,
    ensures
        r == match window_start(*b) {
            Some(_) => slot_value(window_slots(*b), window_slots(*b).len() - 1),
            None => None,
        },
{
    b.get_last_with_tick().map(|(_, action)| *action)
}

/// `InputBuffer::pop` for a tick inside the window: the slots up to that of
/// `tick` leave, the window then starts one tick after `tick`, and what the
/// slot of `tick` stood for is returned and carried into a repeat that comes
/// to the front.
#[verifier::external_body]
pub(crate) fn window_pop(b: &mut InputBuffer<ActionState>, tick: u16) -> (r: Option<ActionState>)
    requires
        window_slots(*old(b)).len() <= MAX_SLOTS,
        window_start(*old(b)) matches Some(s) && ticks_after(s, tick) < window_slots(
            *old(b),
        ).len(),
    ensures
        window_start(*final(b)) == Some(tick_plus(tick, 1) as u16),
        window_slots(*final(b)) == slots_after_drop(
            window_slots(*old(b)),
            ticks_after(window_start(*old(b))->0, tick),
        ),
        r == slot_value(window_slots(*old(b)), ticks_after(window_start(*old(b))->0, tick)),
{
    b.pop(Tick(tick))
}

} // verus!
