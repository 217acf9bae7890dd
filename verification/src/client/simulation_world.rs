//! What the pipeline reads of a world that is run apart from the main one.

use vstd::prelude::*;
use crate::common::scheme::StepInterval;
use crate::common::simulation::{
    run_simulation_schedule, SimulationTick, SimulationTime, SimulationTimeView,
};

verus! {

/// A separate world that holds one instance of the simulation. The
/// pipeline steers it by its clock; the entities and their components are
/// the host's.
#[derive(Clone, Copy, Debug, PartialEq, Eq)]
pub struct SimulationWorld {
    pub time: SimulationTime,
}

impl SimulationWorld {
    /// A world is settled when nothing is queued on its clock: it has run
    /// whatever it was asked to run.
    pub open spec fn settled(&self) -> bool {
        self.time@.target_tick == self.time@.current_tick
    }

    /// A world that stands at tick zero.
    pub fn build(step: StepInterval) -> (world: SimulationWorld)
        ensures
            world.time@ == (SimulationTimeView { current_tick: 0, target_tick: 0, step: step@ }),
            world.settled(),
    {
        SimulationWorld { time: SimulationTime::from_tick(SimulationTick(0), step) }
    }

    /// Queues some number of ticks and runs the schedule until the clock
    /// has caught up. The result lists the ticks that were executed.
    pub fn run(&mut self, execute_ticks: u32) -> (executed: Vec<SimulationTick>)
        requires
            old(self).time@.target_tick + execute_ticks <= u32::MAX,
        ensures
            final(self).time@ == old(self).time@.queue_ticks(execute_ticks as nat).caught_up(),
            executed@ == old(self).time@.queue_ticks(execute_ticks as nat).pending_ticks(),
            old(self).settled() ==> final(self).settled(),
    {
        self.time.queue_ticks(execute_ticks);
        run_simulation_schedule(&mut self.time)
    }

    /// Puts the clock at `tick` with nothing queued. The host then runs the
    /// reset schedule, which despawns every simulation entity.
    pub fn reset(&mut self, tick: SimulationTick)
        ensures
            final(self).time@ == (SimulationTimeView {
                current_tick: tick.0 as nat,
                target_tick: tick.0 as nat,
                step: old(self).time@.step,
            }),
            final(self).settled(),
    {
        self.time = SimulationTime::from_tick(tick, self.time.step_interval());
    }

    /// Extracts this world into another one: the target's clock becomes
    /// this world's, but for its target tick. The host then runs the
    /// extract schedule of the target with this world as its source.
    /// Extraction never runs a tick.
    pub fn extract(&self, target_time: &mut SimulationTime)
        ensures
            final(target_time)@ == self.time@.extract_into(old(target_time)@),
    {
        self.time.extract_time(target_time);
    }
}

} // verus!
