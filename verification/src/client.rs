//! The client side: three worlds and the clock that drives them.

use vstd::prelude::*;
use vstd::arithmetic::div_mod::{
    lemma_basic_div, lemma_div_is_ordered, lemma_div_multiples_vanish,
    lemma_fundamental_div_mod, lemma_hoist_over_denominator, lemma_mod_bound,
};
use vstd::arithmetic::mul::{lemma_mul_inequality, lemma_mul_is_commutative};
use crate::client::prediction::{PredictionUpdates, PredictionWorld, PredictionWorldState};
use crate::client::template_world::{
    all_say_at_most, estimate_sum, estimated_time, lemma_estimate_at_most,
    lemma_estimate_sum_bounded, max_sample_estimate, ServerTickSamples, ServerTickSamplesView,
    TemplateWorld,
};
use crate::common::simulation::update_queue::{
    due_count, lemma_due_count_bounded, lemma_due_count_is_split, UpdateExecutionQueue,
    WorldUpdate,
};
use crate::common::simulation::{tick_time, SimulationTick, SimulationTime, SimulationTimeView};
use crate::common::ResetClientSimulation;

pub mod prediction;
pub mod simulation_world;
pub mod template_world;

verus! {

/// The steps of the client in a frame.
#[derive(Clone, Copy, Debug, PartialEq, Eq, Structural, Hash)]
pub enum ClientSimulationSystems {
    /// Runs first: the simulation is reset where the server asked for it.
    ResetSimulation,
    /// The ticks that the server announced are received and the main clock
    /// is driven.
    ReceiveTime,
    /// The application queues world updates.
    QueueUpdates,
    /// The main world is stepped.
    StepSimulation,
    RunTemplateWorld,
    /// Any updates that should be included in prediction are queued.
    QueuePredictionUpdates,
    RunPredictionWorld,
}

/// The steps of the client in a frame, in the order in which they run.
pub fn client_frame_order() -> (order: [ClientSimulationSystems; 7])
    ensures
        order@ == seq![
            ClientSimulationSystems::ResetSimulation,
            ClientSimulationSystems::ReceiveTime,
            ClientSimulationSystems::QueueUpdates,
            ClientSimulationSystems::StepSimulation,
            ClientSimulationSystems::RunTemplateWorld,
            ClientSimulationSystems::QueuePredictionUpdates,
            ClientSimulationSystems::RunPredictionWorld,
        ],
{
    [
        ClientSimulationSystems::ResetSimulation,
        ClientSimulationSystems::ReceiveTime,
        ClientSimulationSystems::QueueUpdates,
        ClientSimulationSystems::StepSimulation,
        ClientSimulationSystems::RunTemplateWorld,
        ClientSimulationSystems::QueuePredictionUpdates,
        ClientSimulationSystems::RunPredictionWorld,
    ]
}

/// How many ticks the template and the prediction world may still execute
/// in this frame.
#[derive(Clone, Copy, Debug, PartialEq, Eq, Structural)]
pub struct PredictionBudget {
    pub template: u32,
    pub prediction: u32,
}

impl Default for PredictionBudget {
    fn default() -> (budget: PredictionBudget)
        ensures
            budget.template == 0,
            budget.prediction == 0,
    {
        PredictionBudget { template: 0, prediction: 0 }
    }
}

/// How far ahead of the estimated time of the server the client predicts,
/// in nanoseconds.
#[derive(Clone, Copy, Debug, PartialEq, Eq, Structural)]
pub struct PredictionInterval(pub u64);

impl Default for PredictionInterval {
    fn default() -> (interval: PredictionInterval)
        ensures
            interval.0 == 0,
    {
        PredictionInterval(0)
    }
}


/// A message as it comes off a connection.
#[derive(Debug, PartialEq, Eq)]
pub struct Received<M> {
    /// Whether the connection it came on is the one to the server.
    /// Prediction messages from anyone else are dropped.
    pub from_server: bool,
    pub message: M,
}

/// The tick that the main clock is brought up to when the server is at
/// `target_time`: as many whole steps as fit into it, as far as a tick can
/// count.
pub open spec fn reachable_tick(target_time: nat, step: nat) -> nat {
    if target_time / step <= u32::MAX {
        target_time / step
    } else {
        u32::MAX as nat
    }
}

/// How many ticks are queued on a clock whose target is `target_tick` to
/// bring it up to `target_time`.
pub open spec fn ticks_to_queue(target_tick: nat, target_time: nat, step: nat) -> nat {
    if reachable_tick(target_time, step) > target_tick {
        (reachable_tick(target_time, step) - target_tick) as nat
    } else {
        0
    }
}

/// The wall time that the main clock aims at: the estimated time of the
/// server plus the prediction interval.
pub open spec fn prediction_target_time(
    samples: ServerTickSamplesView,
    interval: PredictionInterval,
    step: nat,
    now: nat,
) -> nat {
    estimated_time(samples.samples, step, now) + interval.0 as nat
}

/// The estimate is a mean of values under 2^97 and stays under 2^97.
pub proof fn lemma_estimated_time_bounded(samples: ServerTickSamplesView, step: nat, now: nat)
    requires
        step <= u64::MAX,
        now <= u64::MAX,
    ensures
        estimated_time(samples.samples, step, now) <= max_sample_estimate(),
{
    let count = samples.samples.len();
    if count > 0 {
        let sum = estimate_sum(samples.samples, step, now);
        lemma_estimate_sum_bounded(samples.samples, step, now);
        lemma_div_is_ordered(sum as int, (count * max_sample_estimate()) as int, count as int);
        lemma_mul_is_commutative(count as int, max_sample_estimate() as int);
        lemma_div_multiples_vanish(max_sample_estimate() as int, count as int);
    }
}

/// Queueing stops exactly where one more tick would pass the target time:
/// the new target tick starts at or before the target time when anything
/// was queued, and the tick after it starts behind the target time unless
/// the counter is at its end.
pub proof fn lemma_ticks_to_queue_fit(target_tick: nat, target_time: nat, step: nat)
    requires
        step > 0,
    ensures
        ticks_to_queue(target_tick, target_time, step) > 0 ==> tick_time(
            target_tick + ticks_to_queue(target_tick, target_time, step),
            step,
        ) <= target_time,
        target_tick + ticks_to_queue(target_tick, target_time, step) < u32::MAX ==> tick_time(
            target_tick + ticks_to_queue(target_tick, target_time, step) + 1,
            step,
        ) > target_time,
{
    let whole = target_time / step;
    lemma_fundamental_div_mod(target_time as int, step as int);
    lemma_mod_bound(target_time as int, step as int);
    lemma_mul_is_commutative(step as int, whole as int);
    let queued = ticks_to_queue(target_tick, target_time, step);
    let reached = target_tick + queued;
    if queued > 0 {
        lemma_mul_inequality(reached as int, whole as int, step as int);
    }
    if reached < u32::MAX {
        assert(reached + 1 > whole);
        lemma_mul_inequality((whole + 1) as int, (reached + 1) as int, step as int);
        assert((whole + 1) * step == whole * step + step) by (nonlinear_arith);
    }
}

/// The whole steps that it takes to cover `nanos`.
pub open spec fn steps_to_cover(nanos: nat, step: nat) -> nat {
    (nanos + step - 1) as nat / step
}

/// The main clock is never queued further ahead of the server than the
/// prediction interval reaches.
///
/// Queueing brings the target to the whole steps of the estimate plus the
/// interval or leaves it where it was, whichever is later, as far as a tick
/// can count. A target that was moved does not start after the estimate
/// plus the interval, and lies at most as many ticks past the tick of the
/// estimate as it takes to cover the interval.
pub proof fn lemma_target_stays_within_interval(
    samples: ServerTickSamplesView,
    interval: PredictionInterval,
    step: nat,
    now: nat,
    target_tick: nat,
)
    requires
        step > 0,
    ensures
        ({
            let estimate = estimated_time(samples.samples, step, now);
            let target_time = prediction_target_time(samples, interval, step, now);
            let queued = ticks_to_queue(target_tick, target_time, step);
            &&& target_tick + queued == if reachable_tick(target_time, step) > target_tick {
                reachable_tick(target_time, step)
            } else {
                target_tick
            }
            &&& target_time / step <= u32::MAX ==> reachable_tick(target_time, step) == target_time
                / step
            &&& queued > 0 ==> tick_time(target_tick + queued, step) <= target_time
            &&& queued > 0 ==> target_tick + queued <= estimate / step + steps_to_cover(
                interval.0 as nat,
                step,
            )
        }),
{
    let estimate = estimated_time(samples.samples, step, now);
    let target_time = prediction_target_time(samples, interval, step, now);
    let ahead = steps_to_cover(interval.0 as nat, step);
    let whole = estimate / step;
    lemma_ticks_to_queue_fit(target_tick, target_time, step);
    // The steps that cover the interval are at least as long as it.
    lemma_fundamental_div_mod((interval.0 + step - 1) as int, step as int);
    lemma_mod_bound((interval.0 + step - 1) as int, step as int);
    lemma_mul_is_commutative(step as int, ahead as int);
    assert(ahead * step >= interval.0);
    // So the target time lies before the end of the tick that many steps
    // past the tick of the estimate.
    lemma_fundamental_div_mod(estimate as int, step as int);
    lemma_mod_bound(estimate as int, step as int);
    lemma_mul_is_commutative(step as int, whole as int);
    assert((whole + ahead) * step == whole * step + ahead * step) by (nonlinear_arith);
    let rest = estimate % step;
    assert(target_time <= (whole + ahead) * step + rest);
    lemma_div_is_ordered(
        target_time as int,
        ((whole + ahead) * step + rest) as int,
        step as int,
    );
    lemma_hoist_over_denominator(rest as int, (whole + ahead) as int, step);
    lemma_basic_div(rest as int, step as int);
}

/// Brings the target of the main clock up to the estimated time of the
/// server plus the prediction interval: one tick is queued for every whole
/// step that fits in between. The target never retreats. Returns the number
/// of ticks queued; for each of them the host credits the budgets of the
/// template and the prediction world.
pub fn drive_simulation_time(
    server_time: &ServerTickSamples,
    interval: PredictionInterval,
    time: &mut SimulationTime,
    real_time: u64,
) -> (queued: u32)
    requires
        server_time.wf(),
    ensures
        queued == ticks_to_queue(
            old(time)@.target_tick,
            prediction_target_time(server_time@, interval, old(time)@.step, real_time as nat),
            old(time)@.step,
        ),
        final(time)@ == old(time)@.queue_ticks(queued as nat),
{
    let step = time.step_interval();
    let width = step.nanos();
    proof {
        time.lemma_bounded();
        lemma_estimated_time_bounded(server_time@, step@, real_time as nat);
        assert(u32::MAX * u64::MAX + u64::MAX + u64::MAX < u128::MAX) by (nonlinear_arith);
    }
    let target_time: u128 = server_time.estimated_time(step, real_time) + interval.0 as u128;
    let whole: u128 = target_time / (width as u128);
    let reachable: u32 = if whole <= u32::MAX as u128 {
        whole as u32
    } else {
        u32::MAX
    };
    let target_tick = time.target_tick();
    if reachable > target_tick.0 {
        let queued = reachable - target_tick.0;
        time.queue_ticks(queued);
        queued
    } else {
        time.queue_ticks(0);
        0
    }
}

/// The tick of the last of `messages` that came from the server, if any did.
pub open spec fn last_reset(messages: Seq<Received<ResetClientSimulation>>) -> Option<
    SimulationTick,
>
    decreases messages.len(),
{
    if messages.len() == 0 {
        None
    } else if messages.last().from_server {
        Some(messages.last().message.simulation_tick)
    } else {
        last_reset(messages.drop_last())
    }
}

/// Goes through the reset messages that arrived in this frame. The last
/// one that came from the server counts; those from anyone else are
/// ignored.
pub fn receive_reset_simulations(messages: &Vec<Received<ResetClientSimulation>>) -> (reset:
    Option<SimulationTick>)
    ensures
        reset == last_reset(messages@),
{
    let mut reset: Option<SimulationTick> = None;
    let mut at: usize = 0;
    while at < messages.len()
        invariant
            0 <= at <= messages.len(),
            reset == last_reset(messages@.take(at as int)),
        decreases messages.len() - at,
    {
        assert(messages@.take(at + 1).drop_last() == messages@.take(at as int));
        assert(messages@.take(at + 1).last() == messages@[at as int]);
        if messages[at].from_server {
            reset = Some(messages[at].message.simulation_tick);
        }
        at += 1;
    }
    assert(messages@.take(at as int) == messages@);
    reset
}

/// The tick at which the main world stands after a reset to `reset_tick`:
/// ahead of it by the whole steps of the prediction interval, as far as a
/// tick can count.
pub open spec fn main_reset_tick(reset_tick: nat, interval: PredictionInterval, step: nat) -> nat {
    if reset_tick + (interval.0 as nat) / step <= u32::MAX {
        reset_tick + (interval.0 as nat) / step
    } else {
        u32::MAX as nat
    }
}

/// The state of a client as far as a reset touches it.
pub struct ClientView {
    /// The clock of the template world.
    pub template: SimulationTimeView,
    /// The clock of the prediction world.
    pub prediction: SimulationTimeView,
    /// The state of the prediction.
    pub state: PredictionWorldState,
    /// The clock of the main world.
    pub main: SimulationTimeView,
    pub budget: PredictionBudget,
    pub samples: ServerTickSamplesView,
}

impl ClientView {
    /// The client after a reset to `tick` at local time `now`.
    pub open spec fn reset(
        self,
        tick: SimulationTick,
        interval: PredictionInterval,
        now: u64,
    ) -> ClientView {
        ClientView {
            template: SimulationTimeView {
                current_tick: tick.0 as nat,
                target_tick: tick.0 as nat,
                step: self.template.step,
            },
            prediction: SimulationTimeView {
                current_tick: tick.0 as nat,
                target_tick: tick.0 as nat,
                step: self.prediction.step,
            },
            state: PredictionWorldState::Idle,
            main: SimulationTimeView {
                current_tick: main_reset_tick(tick.0 as nat, interval, self.main.step),
                target_tick: main_reset_tick(tick.0 as nat, interval, self.main.step),
                step: self.main.step,
            },
            budget: PredictionBudget { template: 0, prediction: 0 },
            samples: self.samples.reset(now, tick),
        }
    }
}

/// The view of the client that the given values make.
pub open spec fn client_view(
    template_world: TemplateWorld,
    prediction_world: PredictionWorld,
    time: SimulationTime,
    budget: PredictionBudget,
    samples: ServerTickSamples,
) -> ClientView {
    ClientView {
        template: template_world.0.time@,
        prediction: prediction_world.world.time@,
        state: prediction_world.state,
        main: time@,
        budget,
        samples: samples@,
    }
}

/// Resetting twice to the same tick leaves what resetting once leaves.
pub proof fn lemma_reset_is_idempotent(
    client: ClientView,
    tick: SimulationTick,
    interval: PredictionInterval,
    now: u64,
)
    ensures
        client.reset(tick, interval, now).reset(tick, interval, now) == client.reset(
            tick,
            interval,
            now,
        ),
{
}

/// The main clock never aims further ahead of the server than the
/// prediction interval and the jitter of the link make up.
///
/// Let no sample say more than the time of tick `latest` plus `jitter`.
/// Then queueing leaves the target of the main clock where it was or at
/// most as many ticks ahead of `latest` as whole steps fit into the
/// prediction interval plus the jitter.
pub proof fn lemma_prediction_target_is_bounded(
    samples: ServerTickSamplesView,
    interval: PredictionInterval,
    step: nat,
    now: nat,
    target_tick: nat,
    latest: nat,
    jitter: nat,
)
    requires
        step > 0,
        all_say_at_most(samples.samples, step, now, tick_time(latest, step) + jitter),
    ensures
        ticks_to_queue(
            target_tick,
            prediction_target_time(samples, interval, step, now),
            step,
        ) == 0 || target_tick + ticks_to_queue(
            target_tick,
            prediction_target_time(samples, interval, step, now),
            step,
        ) <= latest + (interval.0 + jitter) / (step as int),
{
    let target_time = prediction_target_time(samples, interval, step, now);
    let most = tick_time(latest, step) + jitter + interval.0;
    lemma_estimate_at_most(samples.samples, step, now, tick_time(latest, step) + jitter);
    lemma_div_is_ordered(target_time as int, most as int, step as int);
    lemma_hoist_over_denominator((interval.0 + jitter) as int, latest as int, step);
}

/// Resets the client when the server asked for it.
///
/// The template and the prediction world are put at the reset tick and the
/// prediction is idle, whatever it was doing. The main clock is put ahead
/// of the reset tick by the prediction interval. The budgets are back at
/// zero, and the samples of the server clock are wiped and seeded with the
/// reset tick at the current real time. Returns whether a reset took
/// place; without one nothing changes.
pub fn reset_simulations(
    reset_tick: Option<SimulationTick>,
    template_world: &mut TemplateWorld,
    prediction_world: &mut PredictionWorld,
    time: &mut SimulationTime,
    interval: PredictionInterval,
    budget: &mut PredictionBudget,
    samples: &mut ServerTickSamples,
    real_time: u64,
) -> (reset: bool)
    requires
        old(samples).wf(),
    ensures
        reset == reset_tick.is_some(),
        final(samples).wf(),
        reset ==> final(template_world).wf() && final(prediction_world).wf(),
        reset_tick matches Some(tick) ==> client_view(
            *final(template_world),
            *final(prediction_world),
            *final(time),
            *final(budget),
            *final(samples),
        ) == client_view(
            *old(template_world),
            *old(prediction_world),
            *old(time),
            *old(budget),
            *old(samples),
        ).reset(tick, interval, real_time),
        reset_tick.is_none() ==> {
            &&& *final(template_world) == *old(template_world)
            &&& *final(prediction_world) == *old(prediction_world)
            &&& *final(time) == *old(time)
            &&& *final(budget) == *old(budget)
            &&& final(samples)@ == old(samples)@
        },
{
    let tick = match reset_tick {
        Some(tick) => tick,
        None => {
            return false;
        },
    };
    template_world.0.reset(tick);
    prediction_world.reset(tick);
    let step = time.step_interval();
    let ahead: u64 = interval.0 / step.nanos();
    let main_tick: u32 = if ahead <= (u32::MAX - tick.0) as u64 {
        tick.0 + ahead as u32
    } else {
        u32::MAX
    };
    *time = SimulationTime::from_tick(SimulationTick(main_tick), step);
    *budget = PredictionBudget::default();
    samples.reset(real_time, tick);
    true
}

/// Whether `after` is `before` with a copy of `update` put in order.
pub open spec fn holds_copy<T: Clone>(
    before: Seq<WorldUpdate<T>>,
    after: Seq<WorldUpdate<T>>,
    update: WorldUpdate<T>,
) -> bool {
    let at = due_count(before, update.tick) as int;
    &&& after.len() == before.len() + 1
    &&& after.remove(at) == before
    &&& after[at].tick == update.tick
    &&& cloned(update.update, after[at].update)
}

/// An update that is stamped no earlier than anything in the queue goes to
/// its back: the update that the client creates at the tick of its main
/// world stands last among the recorded ones, as the ticks of the main
/// world never go back.
pub proof fn lemma_latest_copy_goes_last<T: Clone>(
    before: Seq<WorldUpdate<T>>,
    after: Seq<WorldUpdate<T>>,
    update: WorldUpdate<T>,
)
    requires
        holds_copy(before, after, update),
        forall|i: int| 0 <= i < before.len() ==> before[i].tick.0 <= update.tick.0,
    ensures
        after.drop_last() == before,
        after.last().tick == update.tick,
        cloned(update.update, after.last().update),
{
    lemma_due_count_is_split(before, update.tick, before.len() as int);
    assert(after.remove(before.len() as int) =~= after.drop_last());
}

/// Makes the world updates that the client predicts.
pub struct PredictionUpdateCreator;

impl PredictionUpdateCreator {
    /// Creates a world update for the tick that the main world stands at,
    /// queues it on the main world and records it for prediction.
    ///
    /// It is the caller's part to let the server know: the update is
    /// returned so that it, or just its tick, can be sent there to be
    /// checked and reconciled.
    pub fn create<T: Clone>(
        time: &SimulationTime,
        simulation_queue: &mut UpdateExecutionQueue<T>,
        prediction_updates: &mut PredictionUpdates<T>,
        update: T,
    ) -> (created: WorldUpdate<T>)
        requires
            old(simulation_queue).0.wf(),
            old(prediction_updates).0.wf(),
        ensures
            created.tick.0 == time@.current_tick,
            created.update == update,
            final(simulation_queue).0.wf(),
            final(prediction_updates).0.wf(),
            holds_copy(old(simulation_queue).0@, final(simulation_queue).0@, created),
            holds_copy(old(prediction_updates).0@, final(prediction_updates).0@, created),
    {
        let tick = time.current_tick();
        let queued = WorldUpdate { tick, update: update.clone() };
        let recorded = WorldUpdate { tick, update: update.clone() };
        proof {
            lemma_due_count_bounded(simulation_queue.0@, tick);
        }
        let ghost before = simulation_queue.0@;
        let ghost at = due_count(before, tick) as int;
        simulation_queue.0.insert(queued);
        assert(simulation_queue.0@.remove(at) =~= before);
        proof {
            lemma_due_count_bounded(prediction_updates.0@, tick);
        }
        let ghost recorded_before = prediction_updates.0@;
        let ghost recorded_at = due_count(recorded_before, tick) as int;
        prediction_updates.0.insert(recorded);
        assert(prediction_updates.0@.remove(recorded_at) =~= recorded_before);
        WorldUpdate { tick, update }
    }
}

} // verus!
