//! The input history of one entity: which input was active at which tick.
//!
//! The inputs live in a `lightyear` input window. This module keeps the
//! window inside the range in which its 16-bit tick arithmetic is exact,
//! counts ticks itself in 64 bits, and proves that what comes out of the
//! window is the newest recorded input at or before the tick asked for.
//!
//! A history is read as a map from ticks to inputs. Every contract here is
//! stated over that map.

use crate::action::ActionState;
use crate::buffer::slot_value;
use crate::buffer::slots_after_drop;
use crate::buffer::slots_with;
use crate::buffer::tick_plus;
use crate::buffer::ticks_after;
use crate::buffer::window_get;
use crate::buffer::window_last;
use crate::buffer::window_new;
use crate::buffer::window_pop;
use crate::buffer::window_extend_front;
use crate::buffer::window_set;
use crate::buffer::window_slots;
use crate::buffer::window_start;
use crate::buffer::Slot;
use crate::tick::to_wire;
use crate::tick::wire_of;
use crate::tick::WIRE_TICKS;
use lightyear::input::input_buffer::InputBuffer;
use vstd::prelude::*;

verus! {

/// The longest span of ticks a history can be asked to retain.
pub const MAX_RETENTION: u16 = 32766;

/// `key` is the tick of the newest entry that is not after `tick`.
pub open spec fn is_latest_at(entries: Map<int, ActionState>, tick: int, key: int) -> bool {
    &&& entries.contains_key(key)
    &&& key <= tick
    &&& forall|j: int| key < j <= tick ==> !entries.contains_key(j)
}

/// The input active at `tick`: that of the newest entry not after `tick`,
/// and none where every entry is later.
pub open spec fn latest_at(entries: Map<int, ActionState>, tick: int) -> Option<ActionState> {
    if exists|key: int| is_latest_at(entries, tick, key) {
        Some(entries[choose|key: int| is_latest_at(entries, tick, key)])
    } else {
        None
    }
}

/// No entry at all.
pub open spec fn no_entries(entries: Map<int, ActionState>) -> bool {
    forall|k: int| !entries.contains_key(k)
}

/// The entries that remain when everything before `floor` is forgotten. The
/// input that was active at `floor` stays, as an entry at `floor` itself.
pub open spec fn trimmed(entries: Map<int, ActionState>, floor: int) -> Map<int, ActionState> {
    Map::new(
        |k: int|
            k >= floor && (entries.contains_key(k) || (k == floor && latest_at(entries, floor)
                is Some)),
        |k: int|
            if entries.contains_key(k) {
                entries[k]
            } else {
                latest_at(entries, floor)->0
            },
    )
}

/// The entries a run of slots stands for when its first slot is tick
/// `first`: one entry for each slot that holds an input of its own.
spec fn entries_of(slots: Seq<Slot>, first: int) -> Map<int, ActionState> {
    Map::new(
        |k: int| first <= k < first + slots.len() && slots[k - first] is Input,
        |k: int| slots[k - first]->0,
    )
}

/// The slots hold no gap marker, and begin and end with an input.
spec fn well_kept(slots: Seq<Slot>) -> bool {
    &&& slots.len() > 0
    &&& slots[0] is Input
    &&& slots[slots.len() - 1] is Input
    &&& forall|i: int| 0 <= i < slots.len() ==> !(#[trigger] slots[i] is Absent)
}

/// At most one tick holds the newest entry not after `tick`.
pub proof fn lemma_latest_is_unique(entries: Map<int, ActionState>, tick: int, a: int, b: int)
    requires
        is_latest_at(entries, tick, a),
        is_latest_at(entries, tick, b),
    ensures
        a == b,
{
}

/// The entry that `is_latest_at` singles out is what `latest_at` returns.
pub proof fn lemma_latest_from_key(entries: Map<int, ActionState>, tick: int, key: int)
    requires
        is_latest_at(entries, tick, key),
    ensures
        latest_at(entries, tick) == Some(entries[key]),
{
    let chosen = choose|k: int| is_latest_at(entries, tick, k);
    lemma_latest_is_unique(entries, tick, key, chosen);
}

/// Ticks without an entry do not change the input that is active: from
/// `tick` on it stays what it was, up to the next entry.
pub proof fn lemma_latest_persists(entries: Map<int, ActionState>, tick: int, later: int)
    requires
        tick <= later,
        forall|j: int| tick < j <= later ==> !entries.contains_key(j),
    ensures
        latest_at(entries, later) == latest_at(entries, tick),
{
    if exists|key: int| is_latest_at(entries, tick, key) {
        let key = choose|k: int| is_latest_at(entries, tick, k);
        assert(is_latest_at(entries, later, key));
        lemma_latest_from_key(entries, tick, key);
        lemma_latest_from_key(entries, later, key);
    } else {
        if exists|key: int| is_latest_at(entries, later, key) {
            let key = choose|k: int| is_latest_at(entries, later, k);
            assert(is_latest_at(entries, tick, key));
        }
    }
}

/// Forgetting what lies before `floor` changes no answer at or after
/// `floor`: every input a replay from `floor` on asks for is still there.
pub proof fn lemma_trim_keeps_later_lookups(entries: Map<int, ActionState>, floor: int, tick: int)
    requires
        floor <= tick,
    ensures
        latest_at(trimmed(entries, floor), tick) == latest_at(entries, tick),
{
    let kept = trimmed(entries, floor);
    if exists|key: int| is_latest_at(entries, tick, key) {
        let key = choose|k: int| is_latest_at(entries, tick, k);
        lemma_latest_from_key(entries, tick, key);
        if key >= floor {
            assert(is_latest_at(kept, tick, key));
            lemma_latest_from_key(kept, tick, key);
        } else {
            assert(is_latest_at(entries, floor, key));
            lemma_latest_from_key(entries, floor, key);
            assert(is_latest_at(kept, tick, floor));
            lemma_latest_from_key(kept, tick, floor);
        }
    } else {
        if exists|key: int| is_latest_at(kept, tick, key) {
            let key = choose|k: int| is_latest_at(kept, tick, k);
            assert forall|j: int| key < j <= tick implies !entries.contains_key(j) by {
                if entries.contains_key(j) {
                    assert(kept.contains_key(j));
                }
            }
            if entries.contains_key(key) {
                assert(is_latest_at(entries, tick, key));
            } else {
                let below = choose|k: int| is_latest_at(entries, floor, k);
                assert(is_latest_at(entries, tick, below));
            }
        }
    }
}

/// Forgetting below a floor that no entry lies under forgets nothing.
pub proof fn lemma_trim_below_oldest(entries: Map<int, ActionState>, floor: int)
    requires
        forall|k: int| entries.contains_key(k) ==> floor <= k,
    ensures
        trimmed(entries, floor) == entries,
{
    if latest_at(entries, floor) is Some {
        let key = choose|k: int| is_latest_at(entries, floor, k);
        assert(key == floor);
    }
    assert(trimmed(entries, floor) =~= entries);
}

/// Whether `tick` lies within the `retention` ticks that end at the newest
/// entry, or after them. It does where there is no entry yet.
pub open spec fn within_retention(
    entries: Map<int, ActionState>,
    retention: int,
    tick: int,
) -> bool {
    forall|k: int| entries.contains_key(k) ==> k < tick + retention
}

/// What a history holds after `action` was recorded for `tick` by a history
/// that keeps `retention` ticks and had a place for it.
pub open spec fn recorded(
    entries: Map<int, ActionState>,
    retention: int,
    tick: int,
    action: ActionState,
) -> Map<int, ActionState> {
    trimmed(entries, tick - retention + 1).insert(tick, action)
}

/// Recording the same input for the same tick a second time changes
/// nothing.
pub proof fn lemma_record_is_idempotent(
    entries: Map<int, ActionState>,
    retention: int,
    tick: int,
    action: ActionState,
)
    requires
        retention >= 1,
    ensures
        recorded(recorded(entries, retention, tick, action), retention, tick, action) == recorded(
            entries,
            retention,
            tick,
            action,
        ),
{
    let once = recorded(entries, retention, tick, action);
    lemma_trim_below_oldest(once, tick - retention + 1);
    assert(once.insert(tick, action) =~= once);
}

/// What recording changes and what it leaves alone. The recorded input is
/// the one active at its tick. A later tick answers with it until the next
/// entry after `tick`, and from that entry on as before. A tick between the
/// oldest tick kept and `tick` answers as before.
pub proof fn lemma_lookup_after_record(
    entries: Map<int, ActionState>,
    retention: int,
    tick: int,
    action: ActionState,
    asked: int,
)
    requires
        retention >= 1,
    ensures
        asked == tick ==> latest_at(recorded(entries, retention, tick, action), asked) == Some(
            action,
        ),
        tick - retention + 1 <= asked < tick ==> latest_at(
            recorded(entries, retention, tick, action),
            asked,
        ) == latest_at(entries, asked),
        asked > tick && (forall|k: int| tick < k <= asked ==> !entries.contains_key(k))
            ==> latest_at(recorded(entries, retention, tick, action), asked) == Some(action),
        asked > tick && (exists|k: int| tick < k <= asked && entries.contains_key(k))
            ==> latest_at(recorded(entries, retention, tick, action), asked) == latest_at(
            entries,
            asked,
        ),
{
    let floor = tick - retention + 1;
    let kept = trimmed(entries, floor);
    let after = recorded(entries, retention, tick, action);
    if asked == tick {
        assert(is_latest_at(after, tick, tick));
        lemma_latest_from_key(after, tick, tick);
    }
    if floor <= asked < tick {
        lemma_trim_keeps_later_lookups(entries, floor, asked);
        lemma_same_below(kept, after, asked);
    }
    if asked > tick {
        if forall|k: int| tick < k <= asked ==> !entries.contains_key(k) {
            assert(is_latest_at(after, asked, tick));
            lemma_latest_from_key(after, asked, tick);
        }
        if exists|k: int| tick < k <= asked && entries.contains_key(k) {
            let witness = choose|k: int| tick < k <= asked && entries.contains_key(k);
            lemma_latest_exists(entries, witness, asked);
            let key = choose|k: int| is_latest_at(entries, asked, k);
            assert(key >= witness);
            lemma_latest_from_key(entries, asked, key);
            assert(after.contains_key(key));
            assert forall|j: int| key < j <= asked implies !after.contains_key(j) by {
                if after.contains_key(j) {
                    assert(kept.contains_key(j));
                    assert(entries.contains_key(j));
                }
            }
            assert(is_latest_at(after, asked, key));
            lemma_latest_from_key(after, asked, key);
        }
    }
}

/// Two sets of entries that agree on every tick up to `tick` have the same
/// input active at `tick`.
proof fn lemma_same_below(one: Map<int, ActionState>, other: Map<int, ActionState>, tick: int)
    requires
        forall|k: int| k <= tick ==> (one.contains_key(k) <==> other.contains_key(k)),
        forall|k: int| k <= tick && one.contains_key(k) ==> one[k] == other[k],
    ensures
        latest_at(one, tick) == latest_at(other, tick),
{
    if exists|key: int| is_latest_at(one, tick, key) {
        let key = choose|k: int| is_latest_at(one, tick, k);
        assert(is_latest_at(other, tick, key));
        lemma_latest_from_key(one, tick, key);
        lemma_latest_from_key(other, tick, key);
    } else {
        if exists|key: int| is_latest_at(other, tick, key) {
            let key = choose|k: int| is_latest_at(other, tick, k);
            assert(is_latest_at(one, tick, key));
        }
    }
}

/// Where some entry lies at or before `tick`, one of them is the newest.
proof fn lemma_latest_exists(entries: Map<int, ActionState>, key: int, tick: int)
    requires
        entries.contains_key(key),
        key <= tick,
    ensures
        exists|k: int| is_latest_at(entries, tick, k),
    decreases tick - key,
{
    if exists|j: int| key < j <= tick && entries.contains_key(j) {
        let j = choose|j: int| key < j <= tick && entries.contains_key(j);
        lemma_latest_exists(entries, j, tick);
    } else {
        assert(is_latest_at(entries, tick, key));
    }
}

/// Inside a well-kept run of slots, what a slot stands for is the input
/// active at its tick, and there is always one.
proof fn lemma_slot_is_latest(slots: Seq<Slot>, first: int, i: int)
    requires
        well_kept(slots),
        0 <= i < slots.len(),
    ensures
        slot_value(slots, i) == latest_at(entries_of(slots, first), first + i),
        slot_value(slots, i) is Some,
    decreases i,
{
    let entries = entries_of(slots, first);
    match slots[i] {
        Slot::Input(a) => {
            assert(is_latest_at(entries, first + i, first + i));
            lemma_latest_from_key(entries, first + i, first + i);
        },
        Slot::Repeat => {
            lemma_slot_is_latest(slots, first, i - 1);
            assert(!entries.contains_key(first + i));
            lemma_latest_persists(entries, first + i - 1, first + i);
        },
        Slot::Absent => {},
    }
}

/// Two ticks less than a circle apart are as far apart on the circle as
/// they are in full.
proof fn lemma_wire_distance(first: u64, tick: u64)
    requires
        first <= tick,
        tick - first < WIRE_TICKS,
    ensures
        ticks_after(wire_of(first), wire_of(tick)) == tick - first,
        tick_plus(wire_of(first), tick - first) == wire_of(tick),
{
}

/// The input history of one entity.
pub struct InputHistory {
    window: InputBuffer<ActionState>,
    first: u64,
    count: u16,
    retention: u16,
}

impl View for InputHistory {
    type V = Map<int, ActionState>;

    /// The recorded inputs by tick.
    closed spec fn view(&self) -> Map<int, ActionState> {
        if self.count > 0 {
            entries_of(window_slots(self.window), self.first as int)
        } else {
            Map::empty()
        }
    }
}

impl InputHistory {
    /// The invariant every history made by this module meets.
    pub closed spec fn wf(&self) -> bool {
        let slots = window_slots(self.window);
        &&& 1 <= self.retention <= MAX_RETENTION
        &&& self.count <= self.retention
        &&& self.count > 0 ==> {
            &&& slots.len() == self.count
            &&& well_kept(slots)
            &&& window_start(self.window) == Some(wire_of(self.first))
            &&& self.first + self.count - 1 <= u64::MAX
        }
    }

    /// How many ticks back from the newest entry inputs are kept.
    pub closed spec fn retention_ticks(&self) -> int {
        self.retention as int
    }

    /// A history that keeps `retention` ticks, or none where `retention` is
    /// zero or more than `MAX_RETENTION`.
    pub fn new(retention: u16) -> (made: Option<InputHistory>)
        ensures
            made is Some <==> 1 <= retention <= MAX_RETENTION,
            made matches Some(h) ==> h.wf() && no_entries(h@) && h.retention_ticks() == retention,
    {
        if retention == 0 || retention > MAX_RETENTION {
            None
        } else {
            Some(InputHistory { window: window_new(), first: 0, count: 0, retention })
        }
    }

    pub fn retention(&self) -> (r: u16)
        ensures
            r == self.retention_ticks(),
    {
        self.retention
    }

    /// The input active at `tick`: the newest recorded input that is not
    /// after `tick`. There is none while nothing is recorded, and none for a
    /// tick before the oldest entry.
    pub fn lookup(&self, tick: u64) -> (found: Option<ActionState>)
        requires
            self.wf(),
        ensures
            found == latest_at(self@, tick as int),
    {
        if self.count == 0 || tick < self.first {
            return None;
        }
        let ghost slots = window_slots(self.window);
        let ghost first = self.first as int;
        if tick - self.first < self.count as u64 {
            proof {
                lemma_wire_distance(self.first, tick);
                lemma_slot_is_latest(slots, first, tick - first);
            }
            window_get(&self.window, to_wire(tick))
        } else {
            proof {
                lemma_slot_is_latest(slots, first, self.count - 1);
                lemma_latest_persists(self@, first + self.count - 1, tick as int);
            }
            window_last(&self.window)
        }
    }

    /// The newest entry and its tick.
    pub fn latest(&self) -> (found: Option<(u64, ActionState)>)
        requires
            self.wf(),
        ensures
            found is None <==> no_entries(self@),
            found matches Some((tick, action)) ==> {
                &&& self@.contains_key(tick as int)
                &&& self@[tick as int] == action
                &&& forall|k: int| self@.contains_key(k) ==> k <= tick
            },
    {
        if self.count == 0 {
            return None;
        }
        let ghost slots = window_slots(self.window);
        proof {
            lemma_slot_is_latest(slots, self.first as int, self.count - 1);
            assert(self@.contains_key(self.first + self.count - 1));
        }
        match window_last(&self.window) {
            Some(action) => Some((self.first + (self.count as u64 - 1), action)),
            None => None,
        }
    }

    /// Forgets what lies before `floor`, keeping the input that was active
    /// at `floor` as an entry at `floor`.
    fn drop_below(&mut self, floor: u64)
        requires
            old(self).wf(),
        ensures
            final(self).wf(),
            final(self).retention == old(self).retention,
            final(self)@ == trimmed(old(self)@, floor as int),
            old(self).count == 0 ==> final(self).count == 0,
            old(self).count > 0 ==> final(self).count > 0,
            old(self).count > 0 && floor > old(self).first ==> final(self).first == floor,
            old(self).count > 0 && floor <= old(self).first
                ==> final(self).first == old(self).first,
            old(self).count > 0 && floor >= old(self).first + old(self).count
                ==> final(self).count == 1,
            old(self).count > 0 && floor < old(self).first + old(self).count
                ==> final(self).first + final(self).count == old(self).first + old(self).count,
    {
        let ghost before = self@;
        let ghost slots = window_slots(self.window);
        let ghost first = self.first as int;
        if self.count == 0 || floor <= self.first {
            proof {
                lemma_trim_below_oldest(before, floor as int);
            }
            return;
        }
        let through = floor - 1 - self.first;
        if through < (self.count - 1) as u64 {
            proof {
                lemma_wire_distance(self.first, (floor - 1) as u64);
                lemma_slot_is_latest(slots, first, through as int);
                lemma_slot_is_latest(slots, first, through + 1);
            }
            let _ = window_pop(&mut self.window, to_wire(floor - 1));
            self.first = floor;
            self.count = self.count - (through as u16) - 1;
            proof {
                let rest = window_slots(self.window);
                assert(rest == slots_after_drop(slots, through as int));
                assert(rest.len() == self.count);
                assert forall|i: int| 0 <= i < rest.len() implies !(#[trigger] rest[i]
                    is Absent) by {
                    assert(!(slots[i + through + 1] is Absent));
                }
                assert(rest[rest.len() - 1] is Input) by {
                    assert(slots[slots.len() - 1] is Input);
                }
                assert(self@ =~= trimmed(before, floor as int)) by {
                    assert forall|k: int| self@.contains_key(k) <==> trimmed(
                        before,
                        floor as int,
                    ).contains_key(k) by {
                        if k > floor && k < floor + rest.len() {
                            assert(rest[k - floor] == slots[k - first]);
                        }
                    }
                    assert forall|k: int| self@.contains_key(k) implies self@[k] == trimmed(
                        before,
                        floor as int,
                    )[k] by {
                        if k > floor {
                            assert(rest[k - floor] == slots[k - first]);
                        }
                    }
                }
            }
        } else {
            proof {
                lemma_slot_is_latest(slots, first, self.count - 1);
                lemma_latest_persists(before, first + self.count - 1, floor as int);
            }
            match window_last(&self.window) {
                Some(action) => {
                    self.window = window_new();
                    window_set(&mut self.window, to_wire(floor), Slot::Input(action));
                    self.first = floor;
                    self.count = 1;
                    proof {
                        assert(self@ =~= trimmed(before, floor as int));
                    }
                },
                None => {
                    // The last slot of a history always holds an input.
                    proof {
                        assert(false);
                    }
                },
            }
        }
    }

    /// Forgets the entries before `floor`. The input that was active at
    /// `floor` stays, as an entry at `floor`, so that no lookup at or after
    /// `floor` changes.
    pub fn forget_before(&mut self, floor: u64)
        requires
            old(self).wf(),
        ensures
            final(self).wf(),
            final(self).retention_ticks() == old(self).retention_ticks(),
            final(self)@ == trimmed(old(self)@, floor as int),
    {
        self.drop_below(floor);
    }

    /// Records `action` as the input of `tick`, in place of what was
    /// recorded for that tick before.
    ///
    /// The history keeps the last `retention` ticks up to the newest tick
    /// it holds. A tick that lies before those is too old: nothing is stored
    /// and the history stays as it was. A tick after the newest becomes the
    /// newest, and what then lies before the ticks kept is forgotten.
    pub fn record(&mut self, tick: u64, action: ActionState) -> (stored: bool)
        requires
            old(self).wf(),
        ensures
            final(self).wf(),
            final(self).retention_ticks() == old(self).retention_ticks(),
            stored == within_retention(old(self)@, old(self).retention_ticks(), tick as int),
            !stored ==> final(self)@ == old(self)@,
            stored ==> final(self)@ == recorded(
                old(self)@,
                old(self).retention_ticks(),
                tick as int,
                action,
            ),
    {
        let ghost before = self@;
        let ghost floor = tick - self.retention + 1;
        let ghost slots = window_slots(self.window);
        if self.count == 0 {
            self.window = window_new();
            window_set(&mut self.window, to_wire(tick), Slot::Input(action));
            self.first = tick;
            self.count = 1;
            proof {
                assert(latest_at(before, floor) is None);
                assert(self@ =~= trimmed(before, floor).insert(tick as int, action));
            }
            return true;
        }
        let last = self.first + (self.count as u64 - 1);
        proof {
            assert(before.contains_key(self.first as int));
            assert(before.contains_key(last as int));
        }
        if tick < self.first {
            if last - tick >= self.retention as u64 {
                return false;
            }
            let gap = (self.first - tick) as u16;
            let old_first = self.first;
            proof {
                lemma_wire_distance(tick, self.first);
                lemma_trim_below_oldest(before, floor);
            }
            window_extend_front(&mut self.window, to_wire(tick));
            window_set(&mut self.window, to_wire(tick), Slot::Input(action));
            let mut at = tick + 1;
            while at < old_first
                invariant
                    tick < at <= old_first,
                    old_first - tick == gap,
                    self.retention == old(self).retention,
                    self.count == old(self).count,
                    self.count == slots.len(),
                    1 <= self.retention <= MAX_RETENTION,
                    slots.len() + gap <= self.retention,
                    window_start(self.window) == Some(wire_of(tick)),
                    window_slots(self.window).len() == slots.len() + gap,
                    window_slots(self.window)[0] == Slot::Input(action),
                    forall|i: int| 1 <= i < at - tick ==> window_slots(self.window)[i] is Repeat,
                    forall|i: int|
                        0 <= i < slots.len() ==> window_slots(self.window)[gap + i] == slots[i],
                decreases old_first - at,
            {
                proof {
                    lemma_wire_distance(tick, at);
                }
                window_set(&mut self.window, to_wire(at), Slot::Repeat);
                at = at + 1;
            }
            self.first = tick;
            self.count = self.count + gap;
            proof {
                let after = window_slots(self.window);
                assert(after[after.len() - 1] == slots[slots.len() - 1]);
                assert forall|i: int| 0 <= i < after.len() implies !(#[trigger] after[i]
                    is Absent) by {
                    if i >= gap {
                        assert(after[gap + (i - gap)] == slots[i - gap]);
                    }
                }
                assert(self@ =~= before.insert(tick as int, action)) by {
                    assert forall|k: int| before.insert(tick as int, action).contains_key(
                        k,
                    ) implies self@.contains_key(k) && self@[k] == before.insert(
                        tick as int,
                        action,
                    )[k] by {
                        if k != tick {
                            assert(after[gap + (k - old_first)] == slots[k - old_first]);
                        }
                    }
                    assert forall|k: int| self@.contains_key(k) implies before.insert(
                        tick as int,
                        action,
                    ).contains_key(k) by {
                        if k >= old_first {
                            assert(after[gap + (k - old_first)] == slots[k - old_first]);
                        }
                    }
                }
            }
            return true;
        }
        if tick - self.first >= self.retention as u64 {
            self.drop_below(tick - (self.retention as u64 - 1));
        } else {
            proof {
                lemma_trim_below_oldest(before, floor);
            }
        }
        let ghost kept = self@;
        let ghost kept_slots = window_slots(self.window);
        let offset = tick - self.first;
        proof {
            lemma_wire_distance(self.first, tick);
        }
        window_set(&mut self.window, to_wire(tick), Slot::Input(action));
        if offset >= self.count as u64 {
            self.count = (offset + 1) as u16;
        }
        proof {
            let after = window_slots(self.window);
            assert(after == slots_with(kept_slots, offset as int, Slot::Input(action)));
            assert(self@ =~= kept.insert(tick as int, action));
        }
        true
    }

    pub fn is_empty(&self) -> (r: bool)
        requires
            self.wf(),
        ensures
            r == no_entries(self@),
    {
        proof {
            if self.count > 0 {
                assert(self@.contains_key(self.first as int));
            }
        }
        self.count == 0
    }
}

} // verus!
