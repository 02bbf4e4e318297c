//! Tick numbers that wrap, and the log of the actions applied at each tick,
//! kept so that ticks can be replayed after a correction.

use vstd::prelude::*;
use naia_bevy_client::{sequence_greater_than, CommandHistory};
use crate::inputs::{action_map_contents, EntityActionMap, EntityId, InputAction};
use crate::tick::TickActions;

verus! {

/// The number of a tick. Numbers wrap round after `u16::MAX`.
pub type Tick = u16;

/// Whether `s1` is newer than `s2` in wrapping order: ahead of it by at most
/// half the range. At exactly half the range, the larger number counts as
/// the newer.
pub open spec fn spec_sequence_greater_than(s1: u16, s2: u16) -> bool {
    ((s1 > s2) && (s1 - s2 <= 32768)) || ((s1 < s2) && (s2 - s1 > 32768))
}

/// `sequence_greater_than` of naia compares two wrapping numbers as
/// [`spec_sequence_greater_than`] says; its source is that one expression.
pub assume_specification[ naia_bevy_client::sequence_greater_than ](s1: u16, s2: u16) -> (r: bool)
    ensures
        r == spec_sequence_greater_than(s1, s2),
;

/// The tick after `tick`.
pub open spec fn spec_next_tick(tick: Tick) -> Tick {
    if tick == u16::MAX {
        0
    } else {
        (tick + 1) as u16
    }
}

/// The tick after `tick`: `tick + 1`, wrapping.
pub fn next_tick(tick: Tick) -> (next: Tick)
    ensures
        next == spec_next_tick(tick),
{
    if tick == u16::MAX {
        0
    } else {
        tick + 1
    }
}

/// Whether `a` is newer than `b`, wraparound taken into account.
pub fn is_newer(a: Tick, b: Tick) -> (newer: bool)
    ensures
        newer == spec_sequence_greater_than(a, b),
{
    sequence_greater_than(a, b)
}

/// The tick after any tick is newer than it, also where the number wraps
/// from the maximum to zero.
pub proof fn lemma_next_tick_is_newer(tick: Tick)
    ensures
        spec_sequence_greater_than(spec_next_tick(tick), tick),
        !spec_sequence_greater_than(tick, spec_next_tick(tick)),
{
}

/// No tick is newer than itself, and of two ticks at most one is newer than
/// the other.
pub proof fn lemma_newer_is_strict(a: Tick, b: Tick)
    ensures
        !spec_sequence_greater_than(a, a),
        spec_sequence_greater_than(a, b) ==> !spec_sequence_greater_than(b, a),
        a != b ==> spec_sequence_greater_than(a, b) || spec_sequence_greater_than(b, a),
{
}

/// How far `tick` lies ahead of `base`, counting round the wrap.
pub open spec fn spec_ticks_since(base: Tick, tick: Tick) -> int {
    if tick >= base {
        tick - base
    } else {
        tick - base + 0x1_0000
    }
}

/// Among ticks that lie less than half the range ahead of a common base,
/// the newer one is the one farther ahead.
pub proof fn lemma_newer_within_window(base: Tick, a: Tick, b: Tick)
    requires
        spec_ticks_since(base, a) < 0x8000,
        spec_ticks_since(base, b) < 0x8000,
    ensures
        spec_sequence_greater_than(a, b) <==> spec_ticks_since(base, a) > spec_ticks_since(
            base,
            b,
        ),
{
}

#[verifier::external_type_specification]
#[verifier::external_body]
#[verifier::reject_recursive_types(T)]
pub struct ExCommandHistory<T: Clone>(CommandHistory<T>);

/// One entry of the log: a tick and the actions applied at it.
pub type Entry = (Tick, Map<EntityId, InputAction>);

/// What a `CommandHistory` holds, oldest entry first.
pub uninterp spec fn history_entries(history: CommandHistory<EntityActionMap>) -> Seq<Entry>;

/// Whether a log that holds `entries` takes an entry for `tick`: an empty
/// log takes any, another only a tick newer than its newest.
pub open spec fn spec_can_insert(entries: Seq<Entry>, tick: Tick) -> bool {
    entries.len() == 0 || spec_sequence_greater_than(tick, entries.last().0)
}

/// What is left of `entries` once the oldest entries are dropped, one by
/// one, until the oldest that is left is newer than `since`.
pub open spec fn spec_retained(entries: Seq<Entry>, since: Tick) -> Seq<Entry>
    decreases entries.len(),
{
    if entries.len() == 0 {
        entries
    } else if spec_sequence_greater_than(entries.first().0, since) {
        entries
    } else {
        spec_retained(entries.skip(1), since)
    }
}

/// `CommandHistory::default`: a log without entries.
#[verifier::external_body]
fn history_default() -> (history: CommandHistory<EntityActionMap>)
    ensures
        history_entries(history).len() == 0,
{
    CommandHistory::default()
}

/// `CommandHistory::can_insert`: true of an empty log, and of a tick newer
/// than the one inserted last.
#[verifier::external_body]
fn history_can_insert(history: &CommandHistory<EntityActionMap>, tick: Tick) -> (r: bool)
    ensures
        r == spec_can_insert(history_entries(*history), tick),
{
    history.can_insert(&tick)
}

/// `CommandHistory::insert`: the entry becomes the newest of the log. The
/// outside function panics on a tick that `can_insert` refuses.
#[verifier::external_body]
fn history_insert(history: &mut CommandHistory<EntityActionMap>, tick: Tick, actions: EntityActionMap)
    requires
        spec_can_insert(history_entries(*old(history)), tick),
    ensures
        history_entries(*final(history)) == history_entries(*old(history)).push(
            (tick, action_map_contents(actions)),
        ),
{
    history.insert(tick, actions)
}

/// `CommandHistory::replays`: drops the oldest entries until the oldest is
/// newer than `since`, then hands out a copy of every entry that is left,
/// newest first.
#[verifier::external_body]
fn history_replays(history: &mut CommandHistory<EntityActionMap>, since: Tick) -> (replays: Vec<
    TickActions,
>)
    ensures
        history_entries(*final(history)) == spec_retained(history_entries(*old(history)), since),
        replays@.len() == history_entries(*final(history)).len(),
        forall|i: int|
            0 <= i < replays@.len() ==> (#[trigger] replays@[i]).0 == history_entries(
                *final(history),
            )[replays@.len() - 1 - i].0 && action_map_contents(replays@[i].1) == history_entries(
                *final(history),
            )[replays@.len() - 1 - i].1,
{
    history.replays(&since)
}

/// The log after it was offered the actions applied at `tick`: a tick that
/// the log takes is appended, after the oldest entry has made room if the
/// log held `capacity` entries; any other tick leaves the log as it is.
pub open spec fn spec_logged(
    entries: Seq<Entry>,
    capacity: nat,
    tick: Tick,
    actions: Map<EntityId, InputAction>,
) -> Seq<Entry> {
    if spec_can_insert(entries, tick) {
        (if entries.len() == capacity {
            entries.skip(1)
        } else {
            entries
        }).push((tick, actions))
    } else {
        entries
    }
}

/// Whether each entry is newer than the one before it.
pub open spec fn spec_in_order(entries: Seq<Entry>) -> bool {
    forall|i: int|
        0 <= i < entries.len() - 1 ==> spec_sequence_greater_than(
            (#[trigger] entries[i + 1]).0,
            entries[i].0,
        )
}

/// What `spec_retained` leaves is the log from some entry on.
pub proof fn lemma_retained_is_suffix(entries: Seq<Entry>, since: Tick) -> (dropped: int)
    ensures
        0 <= dropped <= entries.len(),
        spec_retained(entries, since) == entries.skip(dropped),
        forall|i: int|
            0 <= i < dropped ==> !spec_sequence_greater_than((#[trigger] entries[i]).0, since),
        dropped < entries.len() ==> spec_sequence_greater_than(entries[dropped].0, since),
    decreases entries.len(),
{
    if entries.len() == 0 {
        assert(entries.skip(0) =~= entries);
        0
    } else if spec_sequence_greater_than(entries.first().0, since) {
        assert(entries.skip(0) =~= entries);
        0
    } else {
        let rest = entries.skip(1);
        let inner = lemma_retained_is_suffix(rest, since);
        assert(rest.skip(inner) =~= entries.skip(inner + 1));
        assert forall|i: int| 0 <= i < inner + 1 implies !spec_sequence_greater_than(
            (#[trigger] entries[i]).0,
            since,
        ) by {
            if i > 0 {
                assert(entries[i] == rest[i - 1]);
            }
        }
        if inner + 1 < entries.len() {
            assert(entries[inner + 1] == rest[inner]);
        }
        inner + 1
    }
}

/// The default number of ticks that a [`TickHistory`] keeps.
pub const DEFAULT_HISTORY_CAPACITY: usize = 1024;

/// The log of the actions applied at each tick, oldest first. It keeps a
/// bounded number of entries: once full, each new entry pushes the oldest
/// out. The entries are held by naia's `CommandHistory`.
pub struct TickHistory {
    history: CommandHistory<EntityActionMap>,
    capacity: usize,
    count: usize,
    // the tick of the oldest entry, while there is one
    oldest: Tick,
}

impl View for TickHistory {
    type V = Seq<Entry>;

    closed spec fn view(&self) -> Seq<Entry> {
        history_entries(self.history)
    }
}

impl TickHistory {
    /// The number of entries that the log keeps at most; at least 1.
    pub closed spec fn spec_capacity(&self) -> nat {
        self.capacity as nat
    }

    /// The log holds no more than its capacity, and each entry is newer
    /// than the one before it.
    pub closed spec fn wf(&self) -> bool {
        &&& self.capacity >= 1
        &&& self.count == self@.len()
        &&& self.count <= self.capacity
        &&& self.count > 0 ==> self.oldest == self@.first().0
        &&& spec_in_order(self@)
    }

    /// An empty log that keeps `DEFAULT_HISTORY_CAPACITY` entries.
    pub fn new() -> (log: TickHistory)
        ensures
            log.wf(),
            log@.len() == 0,
            log.spec_capacity() == DEFAULT_HISTORY_CAPACITY,
    {
        TickHistory::with_capacity(DEFAULT_HISTORY_CAPACITY)
    }

    /// An empty log that keeps `capacity` entries; a capacity of 0 counts
    /// as 1.
    pub fn with_capacity(capacity: usize) -> (log: TickHistory)
        ensures
            log.wf(),
            log@.len() == 0,
            log.spec_capacity() == if capacity == 0 {
                1
            } else {
                capacity as nat
            },
    {
        TickHistory {
            history: history_default(),
            capacity: if capacity == 0 {
                1
            } else {
                capacity
            },
            count: 0,
            oldest: 0,
        }
    }

    /// The number of entries that the log keeps at most.
    pub fn capacity(&self) -> (capacity: usize)
        ensures
            capacity == self.spec_capacity(),
    {
        self.capacity
    }

    /// The number of entries in the log.
    pub fn len(&self) -> (n: usize)
        requires
            self.wf(),
        ensures
            n == self@.len(),
    {
        self.count
    }

    /// Whether the log takes an entry for `tick`: an empty log takes any,
    /// another only a tick newer than its newest.
    pub fn can_insert(&self, tick: Tick) -> (r: bool)
        ensures
            r == spec_can_insert(self@, tick),
    {
        history_can_insert(&self.history, tick)
    }

    /// Appends the actions applied at `tick`, if the log takes that tick;
    /// tells whether it did. A full log first drops its oldest entry. A
    /// tick that is not newer than the newest entry is refused, and the log
    /// stays as it is.
    pub fn insert(&mut self, tick: Tick, actions: EntityActionMap) -> (inserted: bool)
        requires
            old(self).wf(),
        ensures
            final(self).wf(),
            final(self).spec_capacity() == old(self).spec_capacity(),
            inserted == spec_can_insert(old(self)@, tick),
            final(self)@ == spec_logged(old(self)@, old(self).spec_capacity(), tick, actions@),
    {
        if !history_can_insert(&self.history, tick) {
            return false;
        }
        if self.count == self.capacity {
            // full: the oldest entry makes room
            proof {
                let entries = self@;
                lemma_newer_is_strict(self.oldest, self.oldest);
                if entries.len() > 1 {
                    assert(spec_sequence_greater_than(entries[0int + 1].0, entries[0int].0));
                    assert(entries.skip(1).first() == entries[1]);
                    assert(spec_retained(entries.skip(1), self.oldest) == entries.skip(1));
                } else {
                    assert(entries.skip(1).len() == 0);
                    assert(spec_retained(entries.skip(1), self.oldest) == entries.skip(1));
                }
                assert(spec_retained(entries, self.oldest) == entries.skip(1));
            }
            let rest = history_replays(&mut self.history, self.oldest);
            self.count = rest.len();
            if rest.len() > 0 {
                self.oldest = rest[rest.len() - 1].0;
            }
            proof {
                let entries = old(self)@;
                assert forall|i: int| 0 <= i < self@.len() - 1 implies spec_sequence_greater_than(
                    (#[trigger] self@[i + 1]).0,
                    self@[i].0,
                ) by {
                    assert(self@[i + 1] == entries[(i + 1) + 1]);
                    assert(self@[i] == entries[i + 1]);
                }
                if entries.len() > 1 {
                    assert(spec_can_insert(self@, tick)) by {
                        assert(self@.last() == entries.last());
                    }
                }
            }
        }
        proof {
            assert(spec_can_insert(self@, tick));
        }
        let ghost before = self@;
        if self.count == 0 {
            self.oldest = tick;
        }
        history_insert(&mut self.history, tick, actions);
        self.count = self.count + 1;
        proof {
            let after = self@;
            assert(after == before.push((tick, actions@)));
            assert forall|i: int| 0 <= i < after.len() - 1 implies spec_sequence_greater_than(
                (#[trigger] after[i + 1]).0,
                after[i].0,
            ) by {
                if i + 1 < before.len() {
                    assert(after[i + 1] == before[i + 1]);
                    assert(after[i] == before[i]);
                } else {
                    assert(after[i] == before.last());
                }
            }
        }
        true
    }

    /// Drops the oldest entries until the oldest that is left is newer than
    /// `since`, and hands out a copy of every entry that is left, oldest
    /// first: the ticks to run again on a state that is correct as of
    /// `since`.
    pub fn replays(&mut self, since: Tick) -> (replays: Vec<TickActions>)
        requires
            old(self).wf(),
        ensures
            final(self).wf(),
            final(self).spec_capacity() == old(self).spec_capacity(),
            final(self)@ == spec_retained(old(self)@, since),
            spec_entries_of(replays@) == final(self)@,
    {
        let ghost dropped = lemma_retained_is_suffix(self@, since);
        let mut newest_first = history_replays(&mut self.history, since);
        let ghost handed_out = newest_first@;
        let n = newest_first.len();
        let ghost kept = self@;
        proof {
            assert forall|i: int| 0 <= i < kept.len() - 1 implies spec_sequence_greater_than(
                (#[trigger] kept[i + 1]).0,
                kept[i].0,
            ) by {
                assert(kept[i + 1] == old(self)@[(dropped + i) + 1]);
                assert(kept[i] == old(self)@[dropped + i]);
            }
            assert(spec_in_order(kept));
        }
        self.count = n;
        if n > 0 {
            self.oldest = newest_first[n - 1].0;
        }
        proof {
            assert(self@ == kept);
            assert(self@ == old(self)@.skip(dropped));
            assert(self.count <= self.capacity);
            if n > 0 {
                assert(handed_out[n - 1].0 == self@[n - 1 - (n - 1)].0);
            }
            assert(spec_in_order(self@));
        }
        assert(self.wf());
        let mut replays: Vec<TickActions> = Vec::new();
        let mut taken: usize = 0;
        while taken < n
            invariant
                taken <= n,
                n == handed_out.len(),
                self.wf(),
                self.spec_capacity() == old(self).spec_capacity(),
                self@ == spec_retained(old(self)@, since),
                self@.len() == n,
                forall|i: int|
                    0 <= i < n ==> (#[trigger] handed_out[i]).0 == self@[n - 1 - i].0
                        && handed_out[i].1@ == self@[n - 1 - i].1,
                newest_first@ == handed_out.take(n - taken),
                replays@.len() == taken,
                forall|i: int| 0 <= i < taken ==> #[trigger] replays@[i] == handed_out[n - 1 - i],
            decreases n - taken,
        {
            let entry = newest_first.pop();
            match entry {
                Some(entry) => {
                    replays.push(entry);
                },
                None => {},
            }
            taken += 1;
            proof {
                assert(newest_first@ =~= handed_out.take(n - taken));
            }
        }
        proof {
            assert(spec_entries_of(replays@) =~= self@);
        }
        replays
    }
}

/// The entries that `ticks` stands for.
pub open spec fn spec_entries_of(ticks: Seq<TickActions>) -> Seq<Entry> {
    Seq::new(ticks.len(), |i: int| (ticks[i].0, ticks[i].1@))
}

/// Where the entries of the log and `since` all lie less than half the tick
/// range ahead of a common base, the newer the farther ahead, replaying
/// keeps exactly the entries that are newer than `since`, in their order:
/// every entry dropped is not newer, every entry kept is.
pub proof fn lemma_replays_are_the_newer_entries(entries: Seq<Entry>, since: Tick, base: Tick) -> (dropped: int)
    requires
        spec_in_order(entries),
        spec_ticks_since(base, since) < 0x8000,
        forall|i: int| 0 <= i < entries.len() ==> spec_ticks_since(base, (#[trigger] entries[i]).0) < 0x8000,
    ensures
        0 <= dropped <= entries.len(),
        spec_retained(entries, since) == entries.skip(dropped),
        forall|i: int|
            0 <= i < entries.len() ==> (i >= dropped <==> spec_sequence_greater_than(
                (#[trigger] entries[i]).0,
                since,
            )),
{
    let dropped = lemma_retained_is_suffix(entries, since);
    assert forall|i: int| dropped <= i < entries.len() implies spec_sequence_greater_than(
        (#[trigger] entries[i]).0,
        since,
    ) by {
        lemma_in_order_grows(entries, base, dropped, i);
        lemma_newer_within_window(base, entries[i].0, since);
        lemma_newer_within_window(base, entries[dropped].0, since);
    }
    dropped
}

/// In a log in order whose ticks lie less than half the range ahead of
/// `base`, a later entry lies at least as far ahead as an earlier one.
pub proof fn lemma_in_order_grows(entries: Seq<Entry>, base: Tick, i: int, j: int)
    requires
        spec_in_order(entries),
        0 <= i <= j < entries.len(),
        forall|k: int| 0 <= k < entries.len() ==> spec_ticks_since(base, (#[trigger] entries[k]).0) < 0x8000,
    ensures
        spec_ticks_since(base, entries[i].0) <= spec_ticks_since(base, entries[j].0),
    decreases j - i,
{
    if i < j {
        lemma_in_order_grows(entries, base, i, j - 1);
        assert(spec_sequence_greater_than(entries[(j - 1) + 1].0, entries[j - 1].0));
        lemma_newer_within_window(base, entries[j].0, entries[j - 1].0);
    }
}

} // verus!
