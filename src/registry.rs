//! The process-wide table of running cleanup tasks, one per channel, with a
//! cooperative cancellation flag each, and the scheduler's tick built on it.

use std::collections::HashMap;

use vstd::prelude::*;

verus! {

broadcast use vstd::std_specs::hash::group_hash_axioms;

/// The running cleanup tasks: each registered channel maps to whether its
/// task was asked to stop.
pub struct CancellationRegistry {
    running: HashMap<u64, bool>,
}

impl View for CancellationRegistry {
    type V = Map<u64, bool>;

    closed spec fn view(&self) -> Map<u64, bool> {
        self.running@
    }
}

impl CancellationRegistry {
    /// A registry with no running task.
    pub fn new() -> (r: CancellationRegistry)
        ensures
            r@ == Map::<u64, bool>::empty(),
    {
        CancellationRegistry { running: HashMap::new() }
    }

    /// Whether a cleanup task is registered for `channel_id`.
    pub fn is_running(&self, channel_id: u64) -> (r: bool)
        ensures
            r == self@.contains_key(channel_id),
    {
        self.running.contains_key(&channel_id)
    }

    /// Registers a task for `channel_id`, not asked to stop.
    pub fn register(&mut self, channel_id: u64)
        requires
            !old(self)@.contains_key(channel_id),
        ensures
            final(self)@ == old(self)@.insert(channel_id, false),
    {
        self.running.insert(channel_id, false);
    }

    /// Removes the task of `channel_id`, whether or not one was registered.
    pub fn deregister(&mut self, channel_id: u64)
        ensures
            final(self)@ == old(self)@.remove(channel_id),
    {
        self.running.remove(&channel_id);
    }

    /// Asks the task of `channel_id` to stop; returns whether one was running.
    pub fn cancel(&mut self, channel_id: u64) -> (r: bool)
        ensures
            r == old(self)@.contains_key(channel_id),
            final(self)@ == if r {
                old(self)@.insert(channel_id, true)
            } else {
                old(self)@
            },
    {
        if self.running.contains_key(&channel_id) {
            self.running.insert(channel_id, true);
            true
        } else {
            false
        }
    }

    /// Whether the task of `channel_id` was asked to stop.
    pub fn is_cancelled(&self, channel_id: u64) -> (r: bool)
        ensures
            r == (self@.contains_key(channel_id) && self@[channel_id]),
    {
        match self.running.get(&channel_id) {
            Some(flag) => *flag,
            None => false,
        }
    }

    /// Registers a task for `channel_id` unless one is running; returns
    /// whether it did. Checking and registering is one step.
    pub fn try_register(&mut self, channel_id: u64) -> (r: bool)
        ensures
            r == !old(self)@.contains_key(channel_id),
            final(self)@ == if r {
                old(self)@.insert(channel_id, false)
            } else {
                old(self)@
            },
    {
        if self.is_running(channel_id) {
            false
        } else {
            self.register(channel_id);
            true
        }
    }
}

/// The channels a tick spawns a task for, given the channels already running:
/// each enabled channel with no running task, once.
pub open spec fn tick_plan(running: Set<u64>, channels: Seq<(u64, u32)>) -> Seq<(u64, u32)>
    decreases channels.len(),
{
    if channels.len() == 0 {
        Seq::empty()
    } else if running.contains(channels[0].0) {
        tick_plan(running, channels.drop_first())
    } else {
        seq![channels[0]] + tick_plan(running.insert(channels[0].0), channels.drop_first())
    }
}

/// The ids of `channels`.
pub open spec fn channel_ids(channels: Seq<(u64, u32)>) -> Set<u64> {
    Set::new(|id: u64| exists|i: int| 0 <= i < channels.len() && #[trigger] channels[i].0 == id)
}

/// One scheduler tick: for each enabled channel (id, retention days), in
/// order, registers a task unless one is running, and returns the channels
/// whose task is to be spawned now.
pub fn plan_tick(registry: &mut CancellationRegistry, channels: &Vec<(u64, u32)>) -> (r: Vec<(u64, u32)>)
    ensures
        r@ == tick_plan(old(registry)@.dom(), channels@),
        final(registry)@.dom() == old(registry)@.dom() + channel_ids(channels@),
        forall|id: u64| #[trigger]
            old(registry)@.contains_key(id) ==> final(registry)@[id] == old(registry)@[id],
        forall|id: u64|
            #[trigger] final(registry)@.contains_key(id) && !old(registry)@.contains_key(id)
                ==> !final(registry)@[id],
{
    let ghost r0 = registry@;
    let mut r: Vec<(u64, u32)> = Vec::new();
    let mut i: usize = 0;
    assert(channels@.skip(0) =~= channels@);
    assert(r@ + tick_plan(registry@.dom(), channels@) =~= tick_plan(r0.dom(), channels@));
    assert(registry@.dom() =~= r0.dom() + channel_ids(channels@.take(0)));
    while i < channels.len()
        invariant
            i <= channels@.len(),
            r@ + tick_plan(registry@.dom(), channels@.skip(i as int)) == tick_plan(r0.dom(), channels@),
            registry@.dom() == r0.dom() + channel_ids(channels@.take(i as int)),
            forall|id: u64| #[trigger] r0.contains_key(id) ==> registry@[id] == r0[id],
            forall|id: u64|
                #[trigger] registry@.contains_key(id) && !r0.contains_key(id) ==> !registry@[id],
        decreases channels@.len() - i,
    {
        let (id, days) = channels[i];
        let ghost before = registry@.dom();
        let ghost rest = channels@.skip(i as int);
        assert(rest.drop_first() =~= channels@.skip(i + 1));
        assert(rest[0] == channels@[i as int]);
        if registry.try_register(id) {
            r.push((id, days));
            assert(r@ + tick_plan(registry@.dom(), channels@.skip(i + 1)) =~= (r@.drop_last() + seq![
                rest[0],
            ]) + tick_plan(before.insert(id), rest.drop_first()));
        }
        assert(channel_ids(channels@.take(i + 1)) =~= channel_ids(channels@.take(i as int)).insert(id)) by {
            assert(channels@.take(i + 1)[i as int] == channels@[i as int]);
            assert forall|x: u64| channel_ids(channels@.take(i as int)).contains(x) implies channel_ids(
                channels@.take(i + 1),
            ).contains(x) by {
                let k = choose|k: int| 0 <= k < i && #[trigger] channels@.take(i as int)[k].0 == x;
                assert(channels@.take(i + 1)[k].0 == x);
            }
            assert forall|x: u64| channel_ids(channels@.take(i + 1)).contains(x) && x != id implies channel_ids(
                channels@.take(i as int),
            ).contains(x) by {
                let k = choose|k: int| 0 <= k < i + 1 && #[trigger] channels@.take(i + 1)[k].0 == x;
                assert(channels@.take(i as int)[k].0 == x);
            }
        }
        assert(registry@.dom() =~= before.insert(id));
        i = i + 1;
    }
    assert(channels@.skip(channels@.len() as int) =~= Seq::<(u64, u32)>::empty());
    assert(channels@.take(channels@.len() as int) =~= channels@);
    r
}

proof fn lemma_tick_plan_fresh(running: Set<u64>, channels: Seq<(u64, u32)>)
    ensures
        forall|j: int|
            0 <= j < tick_plan(running, channels).len() ==> !running.contains(
                #[trigger] tick_plan(running, channels)[j].0,
            ),
        forall|a: int, b: int|
            0 <= a < b < tick_plan(running, channels).len() ==> #[trigger] tick_plan(running, channels)[a].0
                != #[trigger] tick_plan(running, channels)[b].0,
    decreases channels.len(),
{
    if channels.len() > 0 {
        let c = channels[0];
        let rest = channels.drop_first();
        if running.contains(c.0) {
            lemma_tick_plan_fresh(running, rest);
            assert(tick_plan(running, channels) == tick_plan(running, rest));
        } else {
            let bigger = running.insert(c.0);
            lemma_tick_plan_fresh(bigger, rest);
            let tail = tick_plan(bigger, rest);
            let plan = tick_plan(running, channels);
            assert(plan == seq![c] + tail);
            assert forall|j: int| 0 <= j < plan.len() implies !running.contains(#[trigger] plan[j].0) by {
                if j > 0 {
                    assert(plan[j] == tail[j - 1]);
                }
            }
            assert forall|a: int, b: int| 0 <= a < b < plan.len() implies #[trigger] plan[a].0
                != #[trigger] plan[b].0 by {
                assert(plan[b] == tail[b - 1]);
                assert(!bigger.contains(tail[b - 1].0));
                if a > 0 {
                    assert(plan[a] == tail[a - 1]);
                }
            }
        }
    }
}

proof fn lemma_tick_plan_all_running(running: Set<u64>, channels: Seq<(u64, u32)>)
    requires
        forall|i: int| 0 <= i < channels.len() ==> running.contains(#[trigger] channels[i].0),
    ensures
        tick_plan(running, channels).len() == 0,
    decreases channels.len(),
{
    if channels.len() > 0 {
        assert(running.contains(channels[0].0));
        let rest = channels.drop_first();
        assert forall|i: int| 0 <= i < rest.len() implies running.contains(#[trigger] rest[i].0) by {
            assert(rest[i] == channels[i + 1]);
        }
        lemma_tick_plan_all_running(running, rest);
    }
}

/// A tick spawns no task for a channel whose task is still registered, and
/// at most one per channel. Once a tick has run, every enabled channel is
/// registered, so a second tick over the same channels spawns nothing.
pub proof fn lemma_one_task_per_channel(running: Set<u64>, channels: Seq<(u64, u32)>)
    ensures
        forall|j: int|
            0 <= j < tick_plan(running, channels).len() ==> !running.contains(
                #[trigger] tick_plan(running, channels)[j].0,
            ),
        forall|a: int, b: int|
            0 <= a < b < tick_plan(running, channels).len() ==> #[trigger] tick_plan(running, channels)[a].0
                != #[trigger] tick_plan(running, channels)[b].0,
        tick_plan(running + channel_ids(channels), channels).len() == 0,
{
    lemma_tick_plan_fresh(running, channels);
    assert forall|i: int| 0 <= i < channels.len() implies (running + channel_ids(channels)).contains(
        #[trigger] channels[i].0,
    ) by {
        assert(channel_ids(channels).contains(channels[i].0));
    }
    lemma_tick_plan_all_running(running + channel_ids(channels), channels);
}

} // verus!

