//! The tick clock of a simulation instance and the scheduler that advances it.
//!
//! A clock holds the tick that runs next and the tick it has been asked to
//! reach. Outside a tick, `current_tick` is the *next* tick to execute; the
//! wall time of the simulation is `current_tick` times the step interval.

use vstd::prelude::*;
use vstd::arithmetic::mul::lemma_mul_upper_bound;
use crate::common::scheme::StepInterval;
use crate::common::simulation::simulation_entity::SimulationEntity;

pub mod extract_component;
pub mod extract_relation;
pub mod extract_resource;
pub mod schedules;
pub mod simulation_entity;
pub mod update_component;
pub mod update_queue;

verus! {

/// A discrete simulation step.
#[derive(Clone, Copy, Debug, PartialEq, Eq, Structural, Hash)]
pub struct SimulationTick(pub u32);

impl Default for SimulationTick {
    fn default() -> (r: SimulationTick)
        ensures
            r.0 == 0,
    {
        SimulationTick(0)
    }
}

/// The wall time, in nanoseconds, at which tick `tick` starts when every
/// tick lasts `step` nanoseconds.
pub open spec fn tick_time(tick: nat, step: nat) -> nat {
    tick * step
}

/// A tick time of a 32-bit tick and a 64-bit step fits in 96 bits.
pub proof fn lemma_tick_time_bounded(tick: nat, step: nat)
    requires
        tick <= u32::MAX,
        step <= u64::MAX,
    ensures
        tick_time(tick, step) <= u32::MAX * u64::MAX,
        tick_time(tick, step) < 0x1_0000_0000_0000_0000_0000_0000,
{
    lemma_mul_upper_bound(tick as int, u32::MAX as int, step as int, u64::MAX as int);
    assert(u32::MAX * u64::MAX < 0x1_0000_0000_0000_0000_0000_0000) by (nonlinear_arith);
}

impl SimulationTick {
    /// The wall time at which this tick starts.
    pub fn time(self, step: StepInterval) -> (nanos: u128)
        ensures
            nanos == tick_time(self.0 as nat, step@),
    {
        let width: u64 = step.nanos();
        proof {
            lemma_tick_time_bounded(self.0 as nat, width as nat);
        }
        (self.0 as u128) * (width as u128)
    }

    /// How many ticks lie from `earlier` up to this tick; zero when `earlier`
    /// is not earlier.
    pub fn saturating_since(self, earlier: SimulationTick) -> (ticks: u32)
        ensures
            ticks == if self.0 >= earlier.0 { self.0 - earlier.0 } else { 0 },
    {
        if self.0 >= earlier.0 {
            self.0 - earlier.0
        } else {
            0
        }
    }
}

/// The role of a simulation instance. The role changes nothing in how the
/// instance steps; it tells which orchestrator drives it.
#[derive(Clone, Copy, Debug, PartialEq, Eq, Structural)]
pub enum SimulationInstance {
    Server,
    ClientMain,
    ClientTemplate,
    ClientPrediction,
}

/// The two steps of an extraction.
#[derive(Clone, Copy, Debug, PartialEq, Eq, Structural, Hash)]
pub enum ExtractSimulationSystems {
    /// The entities of the target are matched with those of the source.
    ExtractEntities,
    /// Components, relations and resources are copied over.
    ExtractComponents,
}

/// The two steps of an extraction, in the order in which they run:
/// components are looked up by the entities that the first step has made.
pub fn extraction_order() -> (order: [ExtractSimulationSystems; 2])
    ensures
        order@ == seq![
            ExtractSimulationSystems::ExtractEntities,
            ExtractSimulationSystems::ExtractComponents,
        ],
{
    [ExtractSimulationSystems::ExtractEntities, ExtractSimulationSystems::ExtractComponents]
}

/// Why an extraction could not be carried out.
#[derive(Clone, Copy, Debug, PartialEq, Eq, Structural)]
pub enum ExtractError {
    /// A simulation entity of the source world has no entity in the local
    /// world, though the entities are extracted first.
    MissingLocalEntity { entity: SimulationEntity },
    /// An entity of the source world is related to one that carries no
    /// simulation entity.
    TargetWithoutSimulationEntity { entity: SimulationEntity },
    /// An entity of the source world is related to a simulation entity that
    /// has no entity in the local world.
    MissingLocalTarget { entity: SimulationEntity, target: SimulationEntity },
    /// The resource is not present in the source world.
    MissingSourceResource,
    /// The resource is not present in the local world.
    MissingLocalResource,
}

/// What a clock is, as numbers.
pub struct SimulationTimeView {
    /// The tick that runs next.
    pub current_tick: nat,
    /// The tick the scheduler has been asked to reach.
    pub target_tick: nat,
    /// The length of one tick in nanoseconds.
    pub step: nat,
}

/// The clock of one simulation instance.
#[derive(Clone, Copy, Debug, PartialEq, Eq)]
pub struct SimulationTime {
    current_tick: SimulationTick,
    target_tick: SimulationTick,
    step: StepInterval,
}

impl View for SimulationTime {
    type V = SimulationTimeView;

    closed spec fn view(&self) -> SimulationTimeView {
        SimulationTimeView {
            current_tick: self.current_tick.0 as nat,
            target_tick: self.target_tick.0 as nat,
            step: self.step@,
        }
    }
}

impl SimulationTimeView {
    /// Whether a tick is outstanding.
    pub open spec fn pending(self) -> bool {
        self.current_tick < self.target_tick
    }

    /// The wall time of the simulation: the start of the tick that runs next.
    pub open spec fn elapsed(self) -> nat {
        tick_time(self.current_tick, self.step)
    }

    /// The clock after `ticks` more ticks were queued.
    pub open spec fn queue_ticks(self, ticks: nat) -> SimulationTimeView {
        SimulationTimeView { target_tick: self.target_tick + ticks, ..self }
    }

    /// The clock after one tick was executed.
    pub open spec fn step(self) -> SimulationTimeView {
        SimulationTimeView { current_tick: self.current_tick + 1, ..self }
    }

    /// The clock with nothing left to catch up.
    pub open spec fn clear_target(self) -> SimulationTimeView {
        SimulationTimeView { target_tick: self.current_tick, ..self }
    }

    /// The clock of `target` after `self` was extracted into it: the wall
    /// clock is the source's, the catch-up plan stays the target's own.
    pub open spec fn extract_into(self, target: SimulationTimeView) -> SimulationTimeView {
        SimulationTimeView { target_tick: target.target_tick, ..self }
    }

    /// The clock once the scheduler has caught up.
    pub open spec fn caught_up(self) -> SimulationTimeView {
        if self.pending() {
            SimulationTimeView { current_tick: self.target_tick, ..self }
        } else {
            self
        }
    }

    /// The ticks the scheduler executes to catch up, in order.
    pub open spec fn pending_ticks(self) -> Seq<SimulationTick> {
        if self.pending() {
            Seq::new(
                (self.target_tick - self.current_tick) as nat,
                |i: int| SimulationTick((self.current_tick + i) as u32),
            )
        } else {
            Seq::empty()
        }
    }
}

impl Default for SimulationTime {
    /// A clock at tick zero with the default step interval.
    fn default() -> (time: SimulationTime)
        ensures
            time@ == (SimulationTimeView {
                current_tick: 0,
                target_tick: 0,
                step: crate::common::scheme::DEFAULT_STEP_NANOS as nat,
            }),
    {
        SimulationTime::from_tick(SimulationTick(0), StepInterval::default())
    }
}

impl SimulationTime {
    /// Both ticks of a clock fit in 32 bits and its step in 64.
    pub proof fn lemma_bounded(self)
        ensures
            self@.current_tick <= u32::MAX,
            self@.target_tick <= u32::MAX,
            self@.step <= u64::MAX,
    {
        self.step.lemma_bounded();
    }

    /// A clock that stands at `tick` with nothing queued. The first step a
    /// system observes on it has a delta of exactly one step interval.
    pub fn from_tick(tick: SimulationTick, step: StepInterval) -> (time: SimulationTime)
        ensures
            time@ == (SimulationTimeView {
                current_tick: tick.0 as nat,
                target_tick: tick.0 as nat,
                step: step@,
            }),
    {
        SimulationTime { current_tick: tick, target_tick: tick, step }
    }

    /// The tick that runs next. Inside a tick it is the tick being run.
    pub fn current_tick(&self) -> (tick: SimulationTick)
        ensures
            tick.0 == self@.current_tick,
    {
        self.current_tick
    }

    /// The tick the scheduler has been asked to reach.
    pub fn target_tick(&self) -> (tick: SimulationTick)
        ensures
            tick.0 == self@.target_tick,
    {
        self.target_tick
    }

    /// The length of one tick. It is never zero.
    pub fn step_interval(&self) -> (step: StepInterval)
        ensures
            step@ == self@.step,
            step@ > 0,
    {
        let _ = self.step.nanos();
        self.step
    }

    /// The wall time of the simulation in nanoseconds.
    pub fn elapsed(&self) -> (nanos: u128)
        ensures
            nanos == self@.elapsed(),
    {
        self.current_tick.time(self.step)
    }

    /// The wall time that passes in the step that runs next: always one
    /// step interval.
    pub fn delta(&self) -> (nanos: u64)
        ensures
            nanos == self@.step,
            nanos > 0,
    {
        self.step.nanos()
    }

    /// Whether a tick is outstanding.
    pub fn pending(&self) -> (pending: bool)
        ensures
            pending == self@.pending(),
    {
        self.current_tick.0 < self.target_tick.0
    }

    /// Asks for `ticks` more ticks.
    pub fn queue_ticks(&mut self, ticks: u32)
        requires
            old(self)@.target_tick + ticks <= u32::MAX,
        ensures
            final(self)@ == old(self)@.queue_ticks(ticks as nat),
    {
        self.target_tick = SimulationTick(self.target_tick.0 + ticks);
    }

    /// Moves past the tick that was just executed.
    pub fn step(&mut self)
        requires
            old(self)@.current_tick < u32::MAX,
        ensures
            final(self)@ == old(self)@.step(),
    {
        self.current_tick = SimulationTick(self.current_tick.0 + 1);
    }

    /// Drops whatever is queued: the target becomes the current tick.
    pub fn clear_target(&mut self)
        ensures
            final(self)@ == old(self)@.clear_target(),
    {
        self.target_tick = self.current_tick;
    }

    /// Copies this clock into `other` without the target: `other` keeps its
    /// own catch-up plan.
    pub fn extract_time(&self, other: &mut SimulationTime)
        ensures
            final(other)@ == self@.extract_into(old(other)@),
    {
        let target_tick = other.target_tick;
        *other = *self;
        other.target_tick = target_tick;
    }
}

/// Runs the scheduler: while a tick is outstanding the tick is executed and
/// the clock moves past it. The result lists the executed ticks in order;
/// each tick between the old current tick and the target stands in it once.
pub fn run_simulation_schedule(time: &mut SimulationTime) -> (executed: Vec<SimulationTick>)
    ensures
        final(time)@ == old(time)@.caught_up(),
        executed@ == old(time)@.pending_ticks(),
{
    let mut executed: Vec<SimulationTick> = Vec::new();
    while time.pending()
        invariant
            time@.target_tick == old(time)@.target_tick,
            time@.step == old(time)@.step,
            old(time)@.pending() ==> old(time)@.current_tick <= time@.current_tick
                <= time@.target_tick,
            !old(time)@.pending() ==> time@ == old(time)@,
            executed@.len() == time@.current_tick - old(time)@.current_tick,
            forall|i: int|
                0 <= i < executed@.len() ==> executed@[i] == SimulationTick(
                    (old(time)@.current_tick + i) as u32,
                ),
        decreases time@.target_tick - time@.current_tick,
    {
        proof {
            time.lemma_bounded();
        }
        executed.push(time.current_tick());
        time.step();
    }
    executed
}

/// The scheduler never moves a clock back, and neither does queueing or
/// clearing the target.
pub proof fn lemma_scheduler_is_monotone(time: SimulationTimeView, ticks: nat)
    ensures
        time.queue_ticks(ticks).current_tick == time.current_tick,
        time.clear_target().current_tick == time.current_tick,
        time.step().current_tick > time.current_tick,
        time.caught_up().current_tick >= time.current_tick,
        time.queue_ticks(ticks).target_tick >= time.target_tick,
{
}

/// Extraction moves the target's clock back only when the source is behind it.
pub proof fn lemma_extraction_is_monotone(source: SimulationTimeView, target: SimulationTimeView)
    requires
        source.current_tick >= target.current_tick,
    ensures
        source.extract_into(target).current_tick >= target.current_tick,
        source.extract_into(target).target_tick == target.target_tick,
{
}

} // verus!
