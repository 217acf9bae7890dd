//! Tick-stamped world updates and the queue that delivers them.
//!
//! The only sanctioned way to change simulation state from outside a tick is
//! to insert a [`WorldUpdate`] into the queue of its type. The queue is kept
//! in tick order; among updates of one tick the one inserted first comes
//! first. Each tick takes from the front whatever is stamped at or before it.

use vstd::prelude::*;
use std::collections::VecDeque;
use crate::common::simulation::{SimulationTick, SimulationTime};

verus! {

/// A world update with the tick it is meant for.
#[derive(Debug, PartialEq, Eq)]
pub struct WorldUpdate<T> {
    pub tick: SimulationTick,
    pub update: T,
}

impl<T: Clone> Clone for WorldUpdate<T> {
    fn clone(&self) -> (copy: WorldUpdate<T>)
        ensures
            copy.tick == self.tick,
            cloned(self.update, copy.update),
    {
        WorldUpdate { tick: self.tick, update: self.update.clone() }
    }
}

/// Whether the ticks of `updates` never decrease from front to back.
pub open spec fn is_ordered<T>(updates: Seq<WorldUpdate<T>>) -> bool {
    forall|i: int, j: int| 0 <= i <= j < updates.len() ==> updates[i].tick.0 <= updates[j].tick.0
}

/// How many of `updates` are stamped at or before `tick`.
pub open spec fn due_count<T>(updates: Seq<WorldUpdate<T>>, tick: SimulationTick) -> nat
    decreases updates.len(),
{
    if updates.len() == 0 {
        0
    } else {
        due_count(updates.drop_last(), tick) + if updates.last().tick.0 <= tick.0 {
            1nat
        } else {
            0nat
        }
    }
}

/// `updates` with `update` put behind everything stamped at or before its
/// tick.
pub open spec fn insert_ordered<T>(updates: Seq<WorldUpdate<T>>, update: WorldUpdate<T>) -> Seq<
    WorldUpdate<T>,
> {
    updates.insert(due_count(updates, update.tick) as int, update)
}

/// The updates a tick takes from the queue: those stamped at or before it.
pub open spec fn due_updates<T>(updates: Seq<WorldUpdate<T>>, tick: SimulationTick) -> Seq<
    WorldUpdate<T>,
> {
    updates.take(due_count(updates, tick) as int)
}

/// The updates a tick leaves in the queue: those stamped after it.
pub open spec fn later_updates<T>(updates: Seq<WorldUpdate<T>>, tick: SimulationTick) -> Seq<
    WorldUpdate<T>,
> {
    updates.skip(due_count(updates, tick) as int)
}

/// No more updates are due than there are.
pub proof fn lemma_due_count_bounded<T>(updates: Seq<WorldUpdate<T>>, tick: SimulationTick)
    ensures
        due_count(updates, tick) <= updates.len(),
    decreases updates.len(),
{
    if updates.len() > 0 {
        lemma_due_count_bounded(updates.drop_last(), tick);
    }
}

/// In an ordered queue the due updates are a prefix: `split` is their number
/// exactly when everything before it is due and nothing from it on is.
pub proof fn lemma_due_count_is_split<T>(
    updates: Seq<WorldUpdate<T>>,
    tick: SimulationTick,
    split: int,
)
    requires
        0 <= split <= updates.len(),
        forall|i: int| 0 <= i < split ==> updates[i].tick.0 <= tick.0,
        forall|i: int| split <= i < updates.len() ==> updates[i].tick.0 > tick.0,
    ensures
        due_count(updates, tick) == split,
    decreases updates.len(),
{
    if updates.len() > 0 {
        let rest = updates.drop_last();
        if split == updates.len() {
            lemma_due_count_is_split(rest, tick, split - 1);
        } else {
            lemma_due_count_is_split(rest, tick, split);
        }
    }
}

/// In an ordered queue everything before the due count is due and nothing
/// from it on is.
pub proof fn lemma_due_count_splits<T>(updates: Seq<WorldUpdate<T>>, tick: SimulationTick)
    requires
        is_ordered(updates),
    ensures
        due_count(updates, tick) <= updates.len(),
        forall|i: int| 0 <= i < due_count(updates, tick) ==> updates[i].tick.0 <= tick.0,
        forall|i: int| due_count(updates, tick) <= i < updates.len() ==> updates[i].tick.0 > tick.0,
    decreases updates.len(),
{
    if updates.len() > 0 {
        let rest = updates.drop_last();
        lemma_due_count_splits(rest, tick);
        assert forall|i: int| 0 <= i < rest.len() implies rest[i] == updates[i] by {}
        if updates.last().tick.0 <= tick.0 {
            assert forall|i: int| 0 <= i < updates.len() implies updates[i].tick.0 <= tick.0 by {
                assert(updates[i].tick.0 <= updates[updates.len() - 1].tick.0);
            }
            lemma_due_count_is_split(rest, tick, rest.len() as int);
        }
    }
}

/// Inserting in order keeps the queue ordered.
pub proof fn lemma_insert_keeps_order<T>(updates: Seq<WorldUpdate<T>>, update: WorldUpdate<T>)
    requires
        is_ordered(updates),
    ensures
        is_ordered(insert_ordered(updates, update)),
{
    lemma_due_count_splits(updates, update.tick);
    let at = due_count(updates, update.tick) as int;
    let after = insert_ordered(updates, update);
    assert forall|i: int, j: int| 0 <= i <= j < after.len() implies after[i].tick.0
        <= after[j].tick.0 by {
        if i < at && j > at {
            assert(after[i] == updates[i]);
            assert(after[j] == updates[j - 1]);
        } else if i < at && j < at {
            assert(after[i] == updates[i]);
            assert(after[j] == updates[j]);
        } else if i > at {
            assert(after[i] == updates[i - 1]);
            assert(after[j] == updates[j - 1]);
        } else if i == at && j > at {
            assert(after[j] == updates[j - 1]);
        } else if j == at && i < at {
            assert(after[i] == updates[i]);
        }
    }
}

/// An ordered queue of [`WorldUpdate`]s.
pub struct WorldUpdateQueue<T>(VecDeque<WorldUpdate<T>>);

impl<T> View for WorldUpdateQueue<T> {
    type V = Seq<WorldUpdate<T>>;

    closed spec fn view(&self) -> Seq<WorldUpdate<T>> {
        self.0@
    }
}

impl<T> WorldUpdateQueue<T> {
    /// A queue is well formed when it is in tick order.
    pub open spec fn wf(&self) -> bool {
        is_ordered(self@)
    }

    /// An empty queue.
    pub fn new() -> (queue: WorldUpdateQueue<T>)
        ensures
            queue@ == Seq::<WorldUpdate<T>>::empty(),
            queue.wf(),
    {
        WorldUpdateQueue(VecDeque::new())
    }

    /// The number of queued updates.
    pub fn len(&self) -> (len: usize)
        ensures
            len == self@.len(),
    {
        self.0.len()
    }

    /// The update at `index`, counted from the front.
    pub fn get(&self, index: usize) -> (update: Option<&WorldUpdate<T>>)
        ensures
            update == if index < self@.len() {
                Some(&self@[index as int])
            } else {
                None
            },
    {
        if index < self.0.len() {
            Some(&self.0[index])
        } else {
            None
        }
    }

    /// Inserts a world update into the queue, keeping it in order. Among
    /// updates of the same tick the new one goes behind those already there.
    pub fn insert(&mut self, update: WorldUpdate<T>)
        requires
            old(self).wf(),
        ensures
            final(self).wf(),
            final(self)@ == insert_ordered(old(self)@, update),
    {
        let mut low: usize = 0;
        let mut high: usize = self.0.len();
        while low < high
            invariant
                0 <= low <= high <= self.0@.len(),
                is_ordered(self.0@),
                forall|i: int| 0 <= i < low ==> self.0@[i].tick.0 <= update.tick.0,
                forall|i: int| high <= i < self.0@.len() ==> self.0@[i].tick.0 > update.tick.0,
            decreases high - low,
        {
            let middle = low + (high - low) / 2;
            if self.0[middle].tick.0 <= update.tick.0 {
                low = middle + 1;
            } else {
                high = middle;
            }
        }
        proof {
            lemma_due_count_is_split(self.0@, update.tick, low as int);
            lemma_insert_keeps_order(self.0@, update);
        }
        self.0.insert(low, update);
    }

    /// Takes the front update if it is stamped at or before `tick`.
    pub fn next(&mut self, tick: SimulationTick) -> (update: Option<WorldUpdate<T>>)
        ensures
            old(self)@.len() > 0 && old(self)@[0].tick.0 <= tick.0 ==> update == Some(old(self)@[0])
                && final(self)@ == old(self)@.skip(1),
            !(old(self)@.len() > 0 && old(self)@[0].tick.0 <= tick.0) ==> update.is_none()
                && final(self)@ == old(self)@,
            old(self).wf() ==> final(self).wf(),
    {
        if self.0.len() == 0 {
            return None;
        }
        if self.0[0].tick.0 > tick.0 {
            return None;
        }
        let front = self.0.pop_front();
        assert(self.0@ == old(self).0@.skip(1));
        front
    }

    /// Takes every update that is stamped at or before `tick`, in queue
    /// order. What is stamped later stays.
    pub fn drain_due(&mut self, tick: SimulationTick) -> (due: Vec<WorldUpdate<T>>)
        requires
            old(self).wf(),
        ensures
            final(self).wf(),
            due@ == due_updates(old(self)@, tick),
            final(self)@ == later_updates(old(self)@, tick),
    {
        let mut due: Vec<WorldUpdate<T>> = Vec::new();
        let ghost before = self@;
        loop
            invariant_except_break
                due@.len() <= before.len(),
            invariant
                self.wf(),
                is_ordered(before),
                self@ == before.skip(due@.len() as int),
                forall|i: int| 0 <= i < due@.len() ==> before[i].tick.0 <= tick.0,
                forall|i: int| 0 <= i < due@.len() ==> due@[i] == before[i],
            ensures
                due@.len() == due_count(before, tick),
            decreases self@.len(),
        {
            let ghost taken = due@.len() as int;
            match self.next(tick) {
                Some(update) => {
                    assert(before.skip(taken)[0] == before[taken]);
                    assert(before.skip(taken).skip(1) == before.skip(taken + 1));
                    due.push(update);
                },
                None => {
                    proof {
                        assert forall|i: int| taken <= i < before.len() implies before[i].tick.0
                            > tick.0 by {
                            assert(before.skip(taken)[0] == before[taken]);
                            assert(before[taken].tick.0 <= before[i].tick.0);
                        }
                        lemma_due_count_is_split(before, tick, taken);
                    }
                    break ;
                },
            }
        }
        proof {
            lemma_due_count_bounded(before, tick);
            assert forall|i: int| 0 <= i < due@.len() implies due@[i] == due_updates(
                before,
                tick,
            )[i] by {}
        }
        assert(due@ =~= due_updates(before, tick));
        due
    }

    /// Removes every queued update.
    pub fn clear(&mut self)
        ensures
            final(self)@ == Seq::<WorldUpdate<T>>::empty(),
            final(self).wf(),
    {
        self.0.clear();
    }
}

/// The updates that will be applied when their tick is reached.
///
/// Insert world updates into this queue to apply them to the simulation.
pub struct UpdateExecutionQueue<T>(pub WorldUpdateQueue<T>);

impl<T> UpdateExecutionQueue<T> {
    /// An empty queue.
    pub fn new() -> (queue: UpdateExecutionQueue<T>)
        ensures
            queue.0@ == Seq::<WorldUpdate<T>>::empty(),
            queue.0.wf(),
    {
        UpdateExecutionQueue(WorldUpdateQueue::new())
    }

    /// Empties the queue when the simulation is reset. Resetting twice
    /// leaves what resetting once leaves.
    pub fn reset(&mut self)
        ensures
            final(self).0@ == Seq::<WorldUpdate<T>>::empty(),
            final(self).0.wf(),
    {
        self.0.clear();
    }
}

/// An update handed to its executor, with how many ticks late it comes.
#[derive(Debug, PartialEq, Eq)]
pub struct ReadyUpdate<T> {
    pub update: T,
    /// Zero for an update delivered on its own tick.
    pub late_by: u32,
}

/// What `update` is when it is delivered in tick `tick`.
pub open spec fn delivered<T>(update: WorldUpdate<T>, tick: SimulationTick) -> ReadyUpdate<T> {
    ReadyUpdate {
        update: update.update,
        late_by: if tick.0 >= update.tick.0 {
            (tick.0 - update.tick.0) as u32
        } else {
            0
        },
    }
}

/// The updates that are ready to be applied in one simulation step.
///
/// For every kind of world update one executor drains them in each tick and
/// applies them to the world.
#[derive(Debug, PartialEq, Eq)]
pub struct ReadyUpdates<T> {
    /// In the order in which they left the queue.
    pub updates: Vec<ReadyUpdate<T>>,
}

impl<T> ReadyUpdates<T> {
    /// Takes from `queue` the updates that should be applied in the tick
    /// that `time` stands at: every update stamped at or before it, in queue
    /// order. One stamped before it is late and is still handed out.
    pub fn drain(queue: &mut UpdateExecutionQueue<T>, time: &SimulationTime) -> (ready:
        ReadyUpdates<T>)
        requires
            old(queue).0.wf(),
        ensures
            final(queue).0.wf(),
            final(queue).0@ == later_updates(old(queue).0@, SimulationTick(time@.current_tick as u32)),
            ready.updates@ == due_updates(
                old(queue).0@,
                SimulationTick(time@.current_tick as u32),
            ).map_values(
                |update: WorldUpdate<T>|
                    delivered(update, SimulationTick(time@.current_tick as u32)),
            ),
    {
        let tick = time.current_tick();
        proof {
            time.lemma_bounded();
        }
        assert(tick == SimulationTick(time@.current_tick as u32));
        let due = queue.0.drain_due(tick);
        let ghost all = due@;
        let mut updates: Vec<ReadyUpdate<T>> = Vec::new();
        for update in iter: due
            invariant
                iter.seq() == all,
                updates@ == all.take(iter.index() as int).map_values(
                    |update: WorldUpdate<T>| delivered(update, tick),
                ),
        {
            let ghost at = iter.index() as int;
            let late_by = tick.saturating_since(update.tick);
            updates.push(ReadyUpdate { update: update.update, late_by });
            assert(all.take(at + 1) == all.take(at).push(update));
            assert(updates@ =~= all.take(at + 1).map_values(
                |update: WorldUpdate<T>| delivered(update, tick),
            ));
        }
        assert(all.take(all.len() as int) == all);
        ReadyUpdates { updates }
    }
}

/// Inserting an update that is due at `tick` into a queue split at `due`.
proof fn lemma_insert_before_split<T>(
    updates: Seq<WorldUpdate<T>>,
    update: WorldUpdate<T>,
    tick: SimulationTick,
    at: int,
    due: int,
)
    requires
        0 <= at <= due <= updates.len(),
        update.tick.0 <= tick.0,
        forall|i: int| 0 <= i < at ==> updates[i].tick.0 <= update.tick.0,
        forall|i: int| at <= i < updates.len() ==> updates[i].tick.0 > update.tick.0,
        forall|i: int| 0 <= i < due ==> updates[i].tick.0 <= tick.0,
        forall|i: int| due <= i < updates.len() ==> updates[i].tick.0 > tick.0,
    ensures
        due_count(updates.insert(at, update), tick) == due + 1,
        due_count(updates.take(due), update.tick) == at,
        updates.insert(at, update).take(due + 1) == updates.take(due).insert(at, update),
        updates.insert(at, update).skip(due + 1) == updates.skip(due),
{
    let after = updates.insert(at, update);
    assert forall|i: int| 0 <= i < due + 1 implies after[i].tick.0 <= tick.0 by {
        if i < at {
            assert(after[i] == updates[i]);
        } else if i > at {
            assert(after[i] == updates[i - 1]);
        }
    }
    assert forall|i: int| due + 1 <= i < after.len() implies after[i].tick.0 > tick.0 by {
        assert(after[i] == updates[i - 1]);
    }
    lemma_due_count_is_split(after, tick, due + 1);
    let head = updates.take(due);
    assert forall|i: int| 0 <= i < at implies head[i].tick.0 <= update.tick.0 by {
        assert(head[i] == updates[i]);
    }
    assert forall|i: int| at <= i < head.len() implies head[i].tick.0 > update.tick.0 by {
        assert(head[i] == updates[i]);
    }
    lemma_due_count_is_split(head, update.tick, at);
    assert(after.take(due + 1) =~= head.insert(at, update));
    assert(after.skip(due + 1) =~= updates.skip(due));
}

/// Inserting an update that is not yet due at `tick` into a queue split at
/// `due`.
proof fn lemma_insert_behind_split<T>(
    updates: Seq<WorldUpdate<T>>,
    update: WorldUpdate<T>,
    tick: SimulationTick,
    at: int,
    due: int,
)
    requires
        0 <= due <= at <= updates.len(),
        update.tick.0 > tick.0,
        forall|i: int| 0 <= i < at ==> updates[i].tick.0 <= update.tick.0,
        forall|i: int| at <= i < updates.len() ==> updates[i].tick.0 > update.tick.0,
        forall|i: int| 0 <= i < due ==> updates[i].tick.0 <= tick.0,
        forall|i: int| due <= i < updates.len() ==> updates[i].tick.0 > tick.0,
    ensures
        due_count(updates.insert(at, update), tick) == due,
        due_count(updates.skip(due), update.tick) == at - due,
        updates.insert(at, update).take(due) == updates.take(due),
        updates.insert(at, update).skip(due) == updates.skip(due).insert(at - due, update),
{
    let after = updates.insert(at, update);
    assert forall|i: int| 0 <= i < due implies after[i].tick.0 <= tick.0 by {
        assert(after[i] == updates[i]);
    }
    assert forall|i: int| due <= i < after.len() implies after[i].tick.0 > tick.0 by {
        if i < at {
            assert(after[i] == updates[i]);
        } else if i > at {
            assert(after[i] == updates[i - 1]);
        }
    }
    lemma_due_count_is_split(after, tick, due);
    let tail = updates.skip(due);
    assert forall|i: int| 0 <= i < at - due implies tail[i].tick.0 <= update.tick.0 by {
        assert(tail[i] == updates[i + due]);
    }
    assert forall|i: int| at - due <= i < tail.len() implies tail[i].tick.0
        > update.tick.0 by {
        assert(tail[i] == updates[i + due]);
    }
    lemma_due_count_is_split(tail, update.tick, at - due);
    assert(after.take(due) =~= updates.take(due));
    assert(after.skip(due) =~= tail.insert(at - due, update));
}

/// A tick splits the queue in two, what it delivers and what it leaves, in
/// queue order and with nothing lost or doubled. Whatever it delivers was
/// stamped at or before it; whatever it leaves is stamped after it.
pub proof fn lemma_tick_splits_queue<T>(updates: Seq<WorldUpdate<T>>, tick: SimulationTick)
    requires
        is_ordered(updates),
    ensures
        due_updates(updates, tick) + later_updates(updates, tick) == updates,
        forall|i: int|
            0 <= i < due_updates(updates, tick).len() ==> due_updates(updates, tick)[i].tick.0
                <= tick.0,
        forall|i: int|
            0 <= i < later_updates(updates, tick).len() ==> later_updates(updates, tick)[i].tick.0
                > tick.0,
{
    let due = due_count(updates, tick) as int;
    lemma_due_count_splits(updates, tick);
    assert(updates.take(due) + updates.skip(due) =~= updates);
}

/// Every queued update is delivered exactly once.
///
/// An update that is inserted shows up in exactly one of the two parts into
/// which a tick splits the queue: among the delivered ones when the tick has
/// reached its stamp, else among those that stay for a later tick. The other
/// part is what it would have been without the update.
pub proof fn lemma_delivered_exactly_once<T>(
    updates: Seq<WorldUpdate<T>>,
    update: WorldUpdate<T>,
    tick: SimulationTick,
)
    requires
        is_ordered(updates),
    ensures
        update.tick.0 <= tick.0 ==> due_updates(insert_ordered(updates, update), tick)
            == insert_ordered(due_updates(updates, tick), update) && later_updates(
            insert_ordered(updates, update),
            tick,
        ) == later_updates(updates, tick),
        update.tick.0 > tick.0 ==> due_updates(insert_ordered(updates, update), tick)
            == due_updates(updates, tick) && later_updates(insert_ordered(updates, update), tick)
            == insert_ordered(later_updates(updates, tick), update),
{
    let due = due_count(updates, tick) as int;
    let at = due_count(updates, update.tick) as int;
    lemma_due_count_splits(updates, tick);
    lemma_due_count_splits(updates, update.tick);
    if update.tick.0 <= tick.0 {
        if at > due {
            assert(updates[due].tick.0 > tick.0);
            assert(updates[due].tick.0 <= update.tick.0);
        }
        lemma_insert_before_split(updates, update, tick, at, due);
    } else {
        if at < due {
            assert(updates[at].tick.0 > update.tick.0);
            assert(updates[at].tick.0 <= tick.0);
        }
        lemma_insert_behind_split(updates, update, tick, at, due);
    }
}

/// Ticks deliver in turn what one tick would deliver at once.
///
/// What a tick delivers and what a later tick then delivers from the rest
/// is together what the later tick would have delivered alone, and the
/// same is left. So an update is handed out by the first tick that has
/// reached its stamp and by no tick after it.
pub proof fn lemma_ticks_deliver_in_turn<T>(
    updates: Seq<WorldUpdate<T>>,
    earlier: SimulationTick,
    later: SimulationTick,
)
    requires
        is_ordered(updates),
        earlier.0 <= later.0,
    ensures
        due_updates(updates, earlier) + due_updates(later_updates(updates, earlier), later)
            == due_updates(updates, later),
        later_updates(later_updates(updates, earlier), later) == later_updates(updates, later),
{
    let first = due_count(updates, earlier) as int;
    let both = due_count(updates, later) as int;
    lemma_due_count_splits(updates, earlier);
    lemma_due_count_splits(updates, later);
    if first > both {
        assert(updates[both].tick.0 > later.0);
        assert(updates[both].tick.0 <= earlier.0);
    }
    let rest = updates.skip(first);
    assert forall|i: int| 0 <= i < both - first implies rest[i].tick.0 <= later.0 by {
        assert(rest[i] == updates[i + first]);
    }
    assert forall|i: int| both - first <= i < rest.len() implies rest[i].tick.0 > later.0 by {
        assert(rest[i] == updates[i + first]);
    }
    lemma_due_count_is_split(rest, later, both - first);
    assert(updates.take(first) + rest.take(both - first) =~= updates.take(both));
    assert(rest.skip(both - first) =~= updates.skip(both));
}

/// Of two updates of the same tick the one inserted first is drained first:
/// the second lands directly behind the first, and both leave the queue in
/// that order.
pub proof fn lemma_equal_ticks_keep_insertion_order<T>(
    updates: Seq<WorldUpdate<T>>,
    first: WorldUpdate<T>,
    second: WorldUpdate<T>,
)
    requires
        is_ordered(updates),
        first.tick == second.tick,
    ensures
        insert_ordered(insert_ordered(updates, first), second) == updates.insert(
            due_count(updates, first.tick) as int,
            first,
        ).insert(due_count(updates, first.tick) as int + 1, second),
{
    let at = due_count(updates, first.tick) as int;
    let once = insert_ordered(updates, first);
    lemma_due_count_splits(updates, first.tick);
    assert forall|i: int| 0 <= i < at + 1 implies once[i].tick.0 <= second.tick.0 by {
        if i < at {
            assert(once[i] == updates[i]);
        }
    }
    assert forall|i: int| at + 1 <= i < once.len() implies once[i].tick.0 > second.tick.0 by {
        assert(once[i] == updates[i - 1]);
    }
    lemma_due_count_is_split(once, second.tick, at + 1);
}


/// An update as it was handed to its executor in the course of a run.
#[derive(Debug, PartialEq, Eq)]
pub struct Delivery<T> {
    /// The tick in which the update was handed out.
    pub tick: SimulationTick,
    pub update: ReadyUpdate<T>,
}

/// The tick in which an update stamped `stamp` is handed out by a run that
/// starts at tick `start` and reaches it: its own tick, or the first tick
/// of the run when it was queued too late for that.
pub open spec fn delivery_tick(stamp: SimulationTick, start: nat) -> SimulationTick {
    if stamp.0 >= start {
        stamp
    } else {
        SimulationTick(start as u32)
    }
}

/// What `update` is when a run that starts at tick `start` hands it out.
pub open spec fn delivery<T>(update: WorldUpdate<T>, start: nat) -> Delivery<T> {
    Delivery {
        tick: delivery_tick(update.tick, start),
        update: delivered(update, delivery_tick(update.tick, start)),
    }
}

/// The updates that a run from tick `start` up to, but not including, tick
/// `end` hands out, in the order in which it does.
pub open spec fn deliveries<T>(updates: Seq<WorldUpdate<T>>, start: nat, end: nat) -> Seq<
    Delivery<T>,
> {
    if start < end {
        due_updates(updates, SimulationTick((end - 1) as u32)).map_values(
            |update: WorldUpdate<T>| delivery(update, start),
        )
    } else {
        Seq::empty()
    }
}

/// What a run from tick `start` up to, but not including, tick `end` leaves
/// in the queue.
pub open spec fn undelivered<T>(updates: Seq<WorldUpdate<T>>, start: nat, end: nat) -> Seq<
    WorldUpdate<T>,
> {
    if start < end {
        later_updates(updates, SimulationTick((end - 1) as u32))
    } else {
        updates
    }
}

/// One more tick hands out what is stamped with it, or, when it is the
/// first of the run, everything up to it.
proof fn lemma_one_more_tick<T>(updates: Seq<WorldUpdate<T>>, start: nat, tick: nat)
    requires
        is_ordered(updates),
        start <= tick < u32::MAX,
    ensures
        deliveries(updates, start, tick + 1) == deliveries(updates, start, tick) + due_updates(
            undelivered(updates, start, tick),
            SimulationTick(tick as u32),
        ).map_values(
            |update: WorldUpdate<T>|
                Delivery {
                    tick: SimulationTick(tick as u32),
                    update: delivered(update, SimulationTick(tick as u32)),
                },
        ),
        undelivered(updates, start, tick + 1) == later_updates(
            undelivered(updates, start, tick),
            SimulationTick(tick as u32),
        ),
{
    let now = SimulationTick(tick as u32);
    let rest = undelivered(updates, start, tick);
    let late = due_updates(rest, now);
    let handed = late.map_values(
        |update: WorldUpdate<T>| Delivery { tick: now, update: delivered(update, now) },
    );
    let all = due_updates(updates, now);
    lemma_due_count_bounded(rest, now);
    lemma_due_count_bounded(updates, now);
    lemma_tick_splits_queue(updates, now);
    if start < tick {
        let before = SimulationTick((tick - 1) as u32);
        let early = due_updates(updates, before);
        lemma_ticks_deliver_in_turn(updates, before, now);
        lemma_tick_splits_queue(updates, before);
        lemma_due_count_bounded(updates, before);
        assert(all == early + late);
        assert forall|i: int| 0 <= i < late.len() implies delivery(late[i], start) == (Delivery {
            tick: now,
            update: delivered(late[i], now),
        }) by {
            assert(late[i] == all[early.len() + i]);
            assert(all[early.len() + i].tick.0 <= tick);
            assert(late[i] == rest[i]);
            assert(later_updates(updates, before)[i].tick.0 > before.0);
        }
        assert(deliveries(updates, start, tick + 1) =~= deliveries(updates, start, tick) + handed);
    } else {
        assert forall|i: int| 0 <= i < all.len() implies delivery(all[i], start) == (Delivery {
            tick: now,
            update: delivered(all[i], now),
        }) by {
            assert(all[i].tick.0 <= tick);
        }
        assert(deliveries(updates, start, tick + 1) =~= deliveries(updates, start, tick) + handed);
    }
}

/// Runs the scheduler with the executor of one kind of world update: in
/// every tick up to the target the updates that are due are taken from the
/// queue and handed out.
///
/// Every update stamped before the target is handed out exactly once, in
/// queue order: in its own tick, or in the first tick of the run when it was
/// already late. What is stamped at or after the target stays queued.
pub fn deliver_pending_updates<T>(
    time: &mut SimulationTime,
    queue: &mut UpdateExecutionQueue<T>,
) -> (log: Vec<Delivery<T>>)
    requires
        old(queue).0.wf(),
    ensures
        final(queue).0.wf(),
        final(time)@ == old(time)@.caught_up(),
        log@ == deliveries(old(queue).0@, old(time)@.current_tick, old(time)@.target_tick),
        final(queue).0@ == undelivered(
            old(queue).0@,
            old(time)@.current_tick,
            old(time)@.target_tick,
        ),
{
    let mut log: Vec<Delivery<T>> = Vec::new();
    let ghost start = time@.current_tick;
    let ghost updates = queue.0@;
    while time.pending()
        invariant
            queue.0.wf(),
            is_ordered(updates),
            time@.target_tick == old(time)@.target_tick,
            time@.step == old(time)@.step,
            old(time)@.pending() ==> start <= time@.current_tick <= time@.target_tick,
            !old(time)@.pending() ==> time@ == old(time)@,
            start == old(time)@.current_tick,
            log@ == deliveries(updates, start, time@.current_tick),
            queue.0@ == undelivered(updates, start, time@.current_tick),
        decreases time@.target_tick - time@.current_tick,
    {
        proof {
            time.lemma_bounded();
            lemma_one_more_tick(updates, start, time@.current_tick);
        }
        let tick = time.current_tick();
        assert(tick == SimulationTick(time@.current_tick as u32));
        let ready = ReadyUpdates::drain(queue, time);
        let ghost handed = ready.updates@;
        let ghost logged = log@;
        for update in iter: ready.updates
            invariant
                iter.seq() == handed,
                log@ == logged + handed.take(iter.index() as int).map_values(
                    |update: ReadyUpdate<T>| Delivery { tick, update },
                ),
        {
            let ghost at = iter.index() as int;
            log.push(Delivery { tick, update });
            assert(handed.take(at + 1) == handed.take(at).push(update));
            assert(log@ =~= logged + handed.take(at + 1).map_values(
                |update: ReadyUpdate<T>| Delivery { tick, update },
            ));
        }
        assert(handed.take(handed.len() as int) == handed);
        assert(log@ =~= logged + due_updates(
            undelivered(updates, start, time@.current_tick),
            tick,
        ).map_values(
            |update: WorldUpdate<T>| Delivery { tick, update: delivered(update, tick) },
        ));
        time.step();
    }
    log
}

} // verus!
