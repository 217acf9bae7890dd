//! The template world: the client's copy of what the server believes.
//!
//! World updates from the server go into the queues of the template world,
//! and the template world advances to the latest tick that the server has
//! announced. The announcements are also the samples from which the client
//! estimates the server's clock.

use vstd::prelude::*;
use std::collections::VecDeque;
use vstd::arithmetic::div_mod::{
    lemma_div_is_ordered, lemma_div_multiples_vanish, lemma_hoist_over_denominator,
};
use vstd::arithmetic::mul::{lemma_mul_is_commutative, lemma_mul_upper_bound};
use crate::client::simulation_world::SimulationWorld;
use crate::client::prediction::PredictionUpdates;
use crate::client::{PredictionBudget, Received};
use crate::common::scheme::StepInterval;
use crate::common::simulation::update_queue::{insert_ordered, UpdateExecutionQueue, WorldUpdate};
use crate::common::simulation::{
    lemma_tick_time_bounded, tick_time, SimulationTick, SimulationTimeView,
};
use crate::common::{ServerWorldUpdate, UpdateServerTick};

verus! {

/// How many samples the estimate of the server clock rests on unless told
/// otherwise.
pub const SERVER_TIME_ESTIMATE_SAMPLES: u16 = 32;

/// One announcement of the server's tick, with the local real time at which
/// it arrived.
#[derive(Clone, Copy, Debug, PartialEq, Eq, Structural)]
pub struct TickSample {
    /// Nanoseconds of local real time.
    pub received: u64,
    pub tick: SimulationTick,
}

/// What one sample says the server's wall time is at local time `now`: the
/// time of its tick plus what has passed since it arrived.
pub open spec fn sample_estimate(sample: TickSample, step: nat, now: nat) -> nat {
    tick_time(sample.tick.0 as nat, step) + if now >= sample.received {
        (now - sample.received) as nat
    } else {
        0nat
    }
}

/// The sum of what each of `samples` says.
pub open spec fn estimate_sum(samples: Seq<TickSample>, step: nat, now: nat) -> nat
    decreases samples.len(),
{
    if samples.len() == 0 {
        0
    } else {
        estimate_sum(samples.drop_last(), step, now) + sample_estimate(samples.last(), step, now)
    }
}

/// The estimated wall time of the server at local time `now`: the
/// arithmetic mean of what the samples say, rounded down; zero without
/// samples.
pub open spec fn estimated_time(samples: Seq<TickSample>, step: nat, now: nat) -> nat {
    if samples.len() == 0 {
        0
    } else {
        estimate_sum(samples, step, now) / samples.len()
    }
}

/// The last `capacity` of `samples`.
pub open spec fn newest(samples: Seq<TickSample>, capacity: nat) -> Seq<TickSample> {
    if samples.len() <= capacity {
        samples
    } else {
        samples.skip(samples.len() - capacity)
    }
}

/// The largest value one sample can say.
pub open spec fn max_sample_estimate() -> nat {
    (u32::MAX * u64::MAX + u64::MAX) as nat
}

/// What one sample says stays under 2^97.
pub proof fn lemma_sample_estimate_bounded(sample: TickSample, step: nat, now: nat)
    requires
        step <= u64::MAX,
        now <= u64::MAX,
    ensures
        sample_estimate(sample, step, now) <= max_sample_estimate(),
{
    lemma_tick_time_bounded(sample.tick.0 as nat, step);
}

/// The sum of what `samples` say is at most their number times the largest
/// single value.
pub proof fn lemma_estimate_sum_bounded(samples: Seq<TickSample>, step: nat, now: nat)
    requires
        step <= u64::MAX,
        now <= u64::MAX,
    ensures
        estimate_sum(samples, step, now) <= samples.len() * max_sample_estimate(),
    decreases samples.len(),
{
    if samples.len() > 0 {
        lemma_estimate_sum_bounded(samples.drop_last(), step, now);
        lemma_sample_estimate_bounded(samples.last(), step, now);
        assert(samples.len() * max_sample_estimate() == (samples.len() - 1)
            * max_sample_estimate() + max_sample_estimate()) by (nonlinear_arith);
    }
}

/// The announcements of the server's tick that the client has received:
/// the latest one, and the newest few to estimate the server's clock from.
pub struct ServerTickSamples {
    latest: SimulationTick,
    samples: VecDeque<TickSample>,
    capacity: u16,
}

/// What a sample buffer is, as values.
pub struct ServerTickSamplesView {
    /// The tick announced last.
    pub latest: SimulationTick,
    /// The samples held, oldest first.
    pub samples: Seq<TickSample>,
    /// How many samples are kept at most.
    pub capacity: nat,
}

impl View for ServerTickSamples {
    type V = ServerTickSamplesView;

    closed spec fn view(&self) -> ServerTickSamplesView {
        ServerTickSamplesView {
            latest: self.latest,
            samples: self.samples@,
            capacity: self.capacity as nat,
        }
    }
}

impl ServerTickSamplesView {
    /// The buffer after a sample arrived.
    pub open spec fn push(self, received: u64, tick: SimulationTick) -> ServerTickSamplesView {
        ServerTickSamplesView {
            latest: tick,
            samples: newest(self.samples.push(TickSample { received, tick }), self.capacity),
            capacity: self.capacity,
        }
    }

    /// The buffer after a reset: wiped and seeded with one sample.
    pub open spec fn reset(self, now: u64, tick: SimulationTick) -> ServerTickSamplesView {
        ServerTickSamplesView {
            latest: tick,
            samples: newest(seq![TickSample { received: now, tick }], self.capacity),
            capacity: self.capacity,
        }
    }
}

impl ServerTickSamples {
    /// A buffer never holds more than its capacity, which fits in 16 bits.
    pub open spec fn wf(&self) -> bool {
        self@.samples.len() <= self@.capacity <= u16::MAX
    }

    /// An empty buffer that keeps up to `capacity` samples.
    pub fn with_capacity(capacity: u16) -> (samples: ServerTickSamples)
        ensures
            samples.wf(),
            samples@ == (ServerTickSamplesView {
                latest: SimulationTick(0),
                samples: Seq::empty(),
                capacity: capacity as nat,
            }),
    {
        ServerTickSamples { latest: SimulationTick(0), samples: VecDeque::new(), capacity }
    }

    /// Records that the server announced `tick` at local time `real_time`.
    /// When the buffer is full the oldest sample makes room.
    pub fn push(&mut self, real_time: u64, tick: SimulationTick)
        requires
            old(self).wf(),
        ensures
            final(self).wf(),
            final(self)@ == old(self)@.push(real_time, tick),
    {
        self.latest = tick;
        self.samples.push_back(TickSample { received: real_time, tick });
        let ghost pushed = self.samples@;
        if self.samples.len() > self.capacity as usize {
            let _ = self.samples.pop_front();
            assert(self.samples@ == pushed.skip(1));
        }
    }

    /// Wipes the buffer and seeds it with one sample.
    pub fn reset(&mut self, current_time: u64, tick: SimulationTick)
        requires
            old(self).wf(),
        ensures
            final(self).wf(),
            final(self)@ == old(self)@.reset(current_time, tick),
    {
        self.samples.clear();
        self.push(current_time, tick);
        assert(seq![TickSample { received: current_time, tick }] == Seq::<TickSample>::empty().push(
            TickSample { received: current_time, tick },
        ));
    }

    /// The tick that the server announced last.
    pub fn latest(&self) -> (tick: SimulationTick)
        ensures
            tick == self@.latest,
    {
        self.latest
    }

    /// The number of samples held.
    pub fn len(&self) -> (len: usize)
        ensures
            len == self@.samples.len(),
    {
        self.samples.len()
    }

    /// Estimates the wall time of the server, in nanoseconds, at local time
    /// `real_time`.
    pub fn estimated_time(&self, step: StepInterval, real_time: u64) -> (nanos: u128)
        requires
            self.wf(),
        ensures
            nanos == estimated_time(self@.samples, step@, real_time as nat),
    {
        let width: u64 = step.nanos();
        let count: usize = self.samples.len();
        if count == 0 {
            return 0;
        }
        let mut sum: u128 = 0;
        let mut at: usize = 0;
        while at < count
            invariant
                0 <= at <= count,
                count == self.samples@.len(),
                count <= u16::MAX,
                width == step@,
                sum == estimate_sum(self.samples@.take(at as int), step@, real_time as nat),
            decreases count - at,
        {
            let sample = self.samples[at];
            let ghost seen = self.samples@.take(at as int);
            let ghost next = self.samples@.take(at + 1);
            assert(next.drop_last() == seen);
            assert(next.last() == sample);
            proof {
                lemma_estimate_sum_bounded(next, step@, real_time as nat);
                lemma_mul_upper_bound(
                    next.len() as int,
                    u16::MAX as int,
                    max_sample_estimate() as int,
                    max_sample_estimate() as int,
                );
                assert(u16::MAX * (u32::MAX * u64::MAX + u64::MAX) < u128::MAX)
                    by (nonlinear_arith);
                lemma_tick_time_bounded(sample.tick.0 as nat, step@);
            }
            let elapsed: u64 = if real_time >= sample.received {
                real_time - sample.received
            } else {
                0
            };
            let said: u128 = sample.tick.time(step) + elapsed as u128;
            sum = sum + said;
            at += 1;
        }
        assert(self.samples@.take(at as int) == self.samples@);
        sum / (count as u128)
    }
}

impl Default for ServerTickSamples {
    /// An empty buffer of the default capacity.
    fn default() -> (samples: ServerTickSamples)
        ensures
            samples.wf(),
            samples@ == (ServerTickSamplesView {
                latest: SimulationTick(0),
                samples: Seq::empty(),
                capacity: SERVER_TIME_ESTIMATE_SAMPLES as nat,
            }),
    {
        ServerTickSamples::with_capacity(SERVER_TIME_ESTIMATE_SAMPLES)
    }
}


/// The world that holds the most recently known state of the simulation
/// according to the server.
#[derive(Clone, Copy, Debug, PartialEq, Eq)]
pub struct TemplateWorld(pub SimulationWorld);

impl TemplateWorld {
    /// The template world has run whatever it was asked to run.
    pub open spec fn wf(&self) -> bool {
        self.0.settled()
    }

    /// A template world at tick zero.
    pub fn build(step: StepInterval) -> (template_world: TemplateWorld)
        ensures
            template_world.wf(),
            template_world.0.time@ == (SimulationTimeView {
                current_tick: 0,
                target_tick: 0,
                step: step@,
            }),
    {
        TemplateWorld(SimulationWorld::build(step))
    }
}


/// The updates of those of `messages` that came from the server, in their
/// order.
pub open spec fn server_updates<T>(messages: Seq<Received<ServerWorldUpdate<T>>>) -> Seq<
    WorldUpdate<T>,
>
    decreases messages.len(),
{
    if messages.len() == 0 {
        Seq::empty()
    } else if messages.last().from_server {
        server_updates(messages.drop_last()).push(messages.last().message.update)
    } else {
        server_updates(messages.drop_last())
    }
}

/// The updates of those of `messages` that came from the server and are
/// marked for prediction, in their order.
pub open spec fn predicted_updates<T>(messages: Seq<Received<ServerWorldUpdate<T>>>) -> Seq<
    WorldUpdate<T>,
>
    decreases messages.len(),
{
    if messages.len() == 0 {
        Seq::empty()
    } else if messages.last().from_server && messages.last().message.include_in_prediction {
        predicted_updates(messages.drop_last()).push(messages.last().message.update)
    } else {
        predicted_updates(messages.drop_last())
    }
}

/// Whether each of `copies` is a copy of the update at its place in
/// `sources`, with the same tick.
pub open spec fn are_copies<T: Clone>(
    sources: Seq<WorldUpdate<T>>,
    copies: Seq<WorldUpdate<T>>,
) -> bool {
    &&& copies.len() == sources.len()
    &&& forall|i: int|
        0 <= i < sources.len() ==> (#[trigger] copies[i]).tick == sources[i].tick && cloned(
            sources[i].update,
            copies[i].update,
        )
}

/// `queue` after each of `updates` was inserted in turn.
pub open spec fn insert_all<T>(queue: Seq<WorldUpdate<T>>, updates: Seq<WorldUpdate<T>>) -> Seq<
    WorldUpdate<T>,
>
    decreases updates.len(),
{
    if updates.len() == 0 {
        queue
    } else {
        insert_ordered(insert_all(queue, updates.drop_last()), updates.last())
    }
}

/// Takes in the world updates that the server sent, in the order in which
/// they arrived. Each goes into the queue of the template world. A copy of
/// one that the server marked for prediction is also kept for the
/// prediction world to replay. Messages from a connection that is not the
/// server are dropped.
pub fn receive_world_updates<T: Clone>(
    queue: &mut UpdateExecutionQueue<T>,
    prediction_updates: &mut PredictionUpdates<T>,
    messages: Vec<Received<ServerWorldUpdate<T>>>,
)
    requires
        old(queue).0.wf(),
        old(prediction_updates).0.wf(),
    ensures
        final(queue).0.wf(),
        final(prediction_updates).0.wf(),
        final(queue).0@ == insert_all(old(queue).0@, server_updates(messages@)),
        exists|copies: Seq<WorldUpdate<T>>|
            #![trigger are_copies(predicted_updates(messages@), copies)]
            are_copies(predicted_updates(messages@), copies) && final(prediction_updates).0@
                == insert_all(old(prediction_updates).0@, copies),
{
    let ghost all = messages@;
    let ghost before = queue.0@;
    let ghost predicted_before = prediction_updates.0@;
    let ghost mut copies: Seq<WorldUpdate<T>> = Seq::empty();
    for received in iter: messages
        invariant
            iter.seq() == all,
            queue.0.wf(),
            prediction_updates.0.wf(),
            queue.0@ == insert_all(before, server_updates(all.take(iter.index() as int))),
            are_copies(predicted_updates(all.take(iter.index() as int)), copies),
            prediction_updates.0@ == insert_all(predicted_before, copies),
    {
        let ghost at = iter.index() as int;
        assert(all.take(at + 1).drop_last() == all.take(at));
        assert(all.take(at + 1).last() == received);
        if received.from_server {
            let ghost so_far = server_updates(all.take(at));
            let ghost grown = server_updates(all.take(at + 1));
            assert(grown.drop_last() == so_far);
            assert(grown.last() == received.message.update);
            if received.message.include_in_prediction {
                let copy = received.message.update.clone();
                prediction_updates.0.insert(copy);
                proof {
                    let marked = predicted_updates(all.take(at + 1));
                    assert(marked == predicted_updates(all.take(at)).push(
                        received.message.update,
                    ));
                    let more = copies.push(copy);
                    assert(more.drop_last() == copies);
                    assert(more.last() == copy);
                    assert forall|i: int| 0 <= i < marked.len() implies (#[trigger] more[i]).tick
                        == marked[i].tick && cloned(marked[i].update, more[i].update) by {
                        if i < copies.len() {
                            assert(more[i] == copies[i]);
                        }
                    }
                    copies = more;
                }
            }
            queue.0.insert(received.message.update);
        }
    }
    assert(all.take(all.len() as int) == all);
    assert(are_copies(predicted_updates(messages@), copies));
}

/// The buffer after each of `messages` was recorded at local time `now`.
pub open spec fn record_all(
    samples: ServerTickSamplesView,
    messages: Seq<UpdateServerTick>,
    now: u64,
) -> ServerTickSamplesView
    decreases messages.len(),
{
    if messages.len() == 0 {
        samples
    } else {
        record_all(samples, messages.drop_last(), now).push(now, messages.last().simulation_tick)
    }
}

/// Records each tick that the server announced in this frame as a sample
/// taken at the current real time.
pub fn receive_time_updates(
    messages: &Vec<UpdateServerTick>,
    tick_samples: &mut ServerTickSamples,
    real_time: u64,
)
    requires
        old(tick_samples).wf(),
    ensures
        final(tick_samples).wf(),
        final(tick_samples)@ == record_all(old(tick_samples)@, messages@, real_time),
{
    let mut at: usize = 0;
    while at < messages.len()
        invariant
            0 <= at <= messages.len(),
            tick_samples.wf(),
            tick_samples@ == record_all(old(tick_samples)@, messages@.take(at as int), real_time),
        decreases messages.len() - at,
    {
        assert(messages@.take(at + 1).drop_last() == messages@.take(at as int));
        assert(messages@.take(at + 1).last() == messages@[at as int]);
        tick_samples.push(real_time, messages[at].simulation_tick);
        at += 1;
    }
    assert(messages@.take(at as int) == messages@);
}

/// How many ticks the template world executes in a frame: what it is
/// behind the latest tick of the server, as far as the budget allows.
pub open spec fn template_ticks(latest: SimulationTick, current_tick: nat, budget: u32) -> nat {
    let desired = if latest.0 >= current_tick {
        (latest.0 - current_tick) as nat
    } else {
        0
    };
    if desired <= budget {
        desired
    } else {
        budget as nat
    }
}

/// Runs the template world towards the latest tick that the server
/// announced, within the budget of the frame. Returns the ticks that were
/// executed; what the budget does not cover is caught up in a later frame.
pub fn run_template_world(
    budget: &mut PredictionBudget,
    time: &ServerTickSamples,
    template_world: &mut TemplateWorld,
) -> (executed: Vec<SimulationTick>)
    requires
        old(template_world).wf(),
    ensures
        final(template_world).wf(),
        final(template_world).0.time@ == old(template_world).0.time@.queue_ticks(
            template_ticks(time@.latest, old(template_world).0.time@.current_tick, old(budget).template),
        ).caught_up(),
        executed@ == old(template_world).0.time@.queue_ticks(
            template_ticks(time@.latest, old(template_world).0.time@.current_tick, old(budget).template),
        ).pending_ticks(),
        final(budget).template == old(budget).template - template_ticks(
            time@.latest,
            old(template_world).0.time@.current_tick,
            old(budget).template,
        ),
        final(budget).prediction == old(budget).prediction,
        final(template_world).0.time@.current_tick >= old(template_world).0.time@.current_tick,
        old(template_world).0.time@.current_tick <= time@.latest.0 ==> final(template_world).0.time@.current_tick
            <= time@.latest.0,
{
    proof {
        template_world.0.time.lemma_bounded();
    }
    let current_tick = template_world.0.time.current_tick();
    let desired_tick = time.latest();
    let desired_ticks = desired_tick.saturating_since(current_tick);
    let execute_ticks = if desired_ticks <= budget.template {
        desired_ticks
    } else {
        budget.template
    };
    budget.template = budget.template - execute_ticks;
    template_world.0.run(execute_ticks)
}


/// Whether every sample arrived at or before local time `now`.
pub open spec fn all_received_by(samples: Seq<TickSample>, now: nat) -> bool {
    forall|i: int| 0 <= i < samples.len() ==> samples[i].received <= now
}

/// Whether every sample is stamped `offset` nanoseconds ahead of the local
/// time at which it arrived: the server advances at the rate of the local
/// clock and every announcement takes equally long to arrive.
pub open spec fn has_constant_offset(samples: Seq<TickSample>, step: nat, offset: nat) -> bool {
    forall|i: int|
        0 <= i < samples.len() ==> tick_time(samples[i].tick.0 as nat, step)
            == samples[i].received + offset
}

/// Whether no sample says more than `bound` at local time `now`.
pub open spec fn all_say_at_most(samples: Seq<TickSample>, step: nat, now: nat, bound: nat) -> bool {
    forall|i: int| 0 <= i < samples.len() ==> sample_estimate(samples[i], step, now) <= bound
}

/// Later on, the samples say in sum at least what they said before.
proof fn lemma_estimate_sum_is_monotone(samples: Seq<TickSample>, step: nat, earlier: nat, later: nat)
    requires
        earlier <= later,
    ensures
        estimate_sum(samples, step, earlier) <= estimate_sum(samples, step, later),
    decreases samples.len(),
{
    if samples.len() > 0 {
        lemma_estimate_sum_is_monotone(samples.drop_last(), step, earlier, later);
    }
}

/// Once every sample has arrived, the sum of what they say grows by the
/// time that passes, once for each sample.
proof fn lemma_estimate_sum_shifts(samples: Seq<TickSample>, step: nat, earlier: nat, later: nat)
    requires
        earlier <= later,
        all_received_by(samples, earlier),
    ensures
        estimate_sum(samples, step, later) == estimate_sum(samples, step, earlier) + samples.len()
            * (later - earlier),
    decreases samples.len(),
{
    if samples.len() > 0 {
        let rest = samples.drop_last();
        assert(all_received_by(rest, earlier)) by {
            assert forall|i: int| 0 <= i < rest.len() implies rest[i].received <= earlier by {
                assert(rest[i] == samples[i]);
            }
        }
        lemma_estimate_sum_shifts(rest, step, earlier, later);
        assert(samples.last() == samples[samples.len() - 1]);
        assert(samples.len() * (later - earlier) == (samples.len() - 1) * (later - earlier) + (later
            - earlier)) by (nonlinear_arith);
    }
}

/// Samples of one offset say in sum their number times the local time plus
/// the offset.
proof fn lemma_estimate_sum_of_constant_offset(
    samples: Seq<TickSample>,
    step: nat,
    offset: nat,
    now: nat,
)
    requires
        all_received_by(samples, now),
        has_constant_offset(samples, step, offset),
    ensures
        estimate_sum(samples, step, now) == samples.len() * (now + offset),
    decreases samples.len(),
{
    if samples.len() > 0 {
        let rest = samples.drop_last();
        assert forall|i: int| 0 <= i < rest.len() implies rest[i].received <= now && tick_time(
            rest[i].tick.0 as nat,
            step,
        ) == rest[i].received + offset by {
            assert(rest[i] == samples[i]);
        }
        lemma_estimate_sum_of_constant_offset(rest, step, offset, now);
        assert(samples.last() == samples[samples.len() - 1]);
        assert(samples.len() * (now + offset) == (samples.len() - 1) * (now + offset) + (now
            + offset)) by (nonlinear_arith);
    }
}

/// Samples that each say at most `bound` say in sum at most their number
/// times `bound`.
proof fn lemma_estimate_sum_at_most(samples: Seq<TickSample>, step: nat, now: nat, bound: nat)
    requires
        all_say_at_most(samples, step, now, bound),
    ensures
        estimate_sum(samples, step, now) <= samples.len() * bound,
    decreases samples.len(),
{
    if samples.len() > 0 {
        let rest = samples.drop_last();
        assert forall|i: int| 0 <= i < rest.len() implies sample_estimate(rest[i], step, now)
            <= bound by {
            assert(rest[i] == samples[i]);
        }
        lemma_estimate_sum_at_most(rest, step, now, bound);
        assert(samples.last() == samples[samples.len() - 1]);
        assert(samples.len() * bound == (samples.len() - 1) * bound + bound) by (nonlinear_arith);
    }
}

/// The estimate of the server clock never runs backwards while the samples
/// stay the same: at a later local time it is at least what it was.
pub proof fn lemma_estimate_is_monotone(samples: Seq<TickSample>, step: nat, earlier: nat, later: nat)
    requires
        earlier <= later,
    ensures
        estimated_time(samples, step, earlier) <= estimated_time(samples, step, later),
{
    if samples.len() > 0 {
        lemma_estimate_sum_is_monotone(samples, step, earlier, later);
        lemma_div_is_ordered(
            estimate_sum(samples, step, earlier) as int,
            estimate_sum(samples, step, later) as int,
            samples.len() as int,
        );
    }
}

/// Once every sample has arrived the estimate advances exactly with the
/// local clock: what passes here is taken to pass on the server.
pub proof fn lemma_estimate_advances_with_time(
    samples: Seq<TickSample>,
    step: nat,
    earlier: nat,
    later: nat,
)
    requires
        samples.len() > 0,
        earlier <= later,
        all_received_by(samples, earlier),
    ensures
        estimated_time(samples, step, later) == estimated_time(samples, step, earlier) + (later
            - earlier),
{
    lemma_estimate_sum_shifts(samples, step, earlier, later);
    let count = samples.len() as int;
    let sum = estimate_sum(samples, step, earlier) as int;
    let passed = later - earlier;
    assert((sum + count * passed) / count == sum / count + passed) by {
        lemma_mul_is_commutative(count, passed);
        lemma_hoist_over_denominator(sum, passed, count as nat);
    }
}

/// On a link without jitter the estimate is exact. When the server
/// advances at the rate of the local clock and every announcement takes
/// equally long, so that every sample is stamped the same `offset` ahead of
/// its arrival, the estimate is the local time plus that offset, whichever
/// samples the buffer holds. It then grows with the local time, also across
/// new samples.
pub proof fn lemma_estimate_is_exact_without_jitter(
    samples: Seq<TickSample>,
    step: nat,
    offset: nat,
    now: nat,
)
    requires
        samples.len() > 0,
        all_received_by(samples, now),
        has_constant_offset(samples, step, offset),
    ensures
        estimated_time(samples, step, now) == now + offset,
{
    lemma_estimate_sum_of_constant_offset(samples, step, offset, now);
    lemma_div_multiples_vanish((now + offset) as int, samples.len() as int);
    lemma_mul_is_commutative(samples.len() as int, (now + offset) as int);
}

/// The estimate is at most what the sample that says most says.
pub proof fn lemma_estimate_at_most(samples: Seq<TickSample>, step: nat, now: nat, bound: nat)
    requires
        all_say_at_most(samples, step, now, bound),
    ensures
        estimated_time(samples, step, now) <= bound,
{
    if samples.len() > 0 {
        lemma_estimate_sum_at_most(samples, step, now, bound);
        lemma_div_is_ordered(
            estimate_sum(samples, step, now) as int,
            (samples.len() * bound) as int,
            samples.len() as int,
        );
        lemma_mul_is_commutative(samples.len() as int, bound as int);
        lemma_div_multiples_vanish(bound as int, samples.len() as int);
    }
}

} // verus!
