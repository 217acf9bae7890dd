//! The schedules of a simulation instance and the order in which they run.

use vstd::prelude::*;

verus! {

/// The schedules that every simulation instance has.
#[derive(Clone, Copy, Debug, PartialEq, Eq, Structural, Hash)]
pub enum SimulationSchedule {
    SimulationPreStartup,
    SimulationStartup,
    SimulationPostStartup,
    SimulationPreUpdate,
    /// Where the simulation is stepped: the executors of the world updates
    /// and the systems of the application run here.
    SimulationUpdate,
    SimulationPostUpdate,
    /// Removes the data of the simulation and sets up new data. Other than
    /// the startup schedules it may run many times in the life of a world.
    ResetSimulation,
    /// Extracts the state of a source world into the local world. It runs
    /// on one thread and never runs a tick.
    ExtractSimulation,
}

/// The schedules that run once when an instance starts, in order.
pub fn run_simulation_startup_main() -> (schedules: [SimulationSchedule; 3])
    ensures
        schedules@ == seq![
            SimulationSchedule::SimulationPreStartup,
            SimulationSchedule::SimulationStartup,
            SimulationSchedule::SimulationPostStartup,
        ],
{
    [
        SimulationSchedule::SimulationPreStartup,
        SimulationSchedule::SimulationStartup,
        SimulationSchedule::SimulationPostStartup,
    ]
}

/// The schedules that run in every tick, in order.
pub fn run_simulation_main() -> (schedules: [SimulationSchedule; 3])
    ensures
        schedules@ == seq![
            SimulationSchedule::SimulationPreUpdate,
            SimulationSchedule::SimulationUpdate,
            SimulationSchedule::SimulationPostUpdate,
        ],
{
    [
        SimulationSchedule::SimulationPreUpdate,
        SimulationSchedule::SimulationUpdate,
        SimulationSchedule::SimulationPostUpdate,
    ]
}

/// The parts of the update schedule.
#[derive(Clone, Copy, Debug, PartialEq, Eq, Structural, Hash)]
pub enum SimulationUpdateSystems {
    /// Where component updates are applied.
    UpdateComponentSystems,
    /// Where the systems of the application run.
    Application,
    /// Where simulation entities are despawned by their updates.
    DespawnSimulationEntities,
}

/// The parts of the update schedule, in the order in which they run:
/// components are brought up to date before the application sees them, and
/// entities go last.
pub fn simulation_update_order() -> (order: [SimulationUpdateSystems; 3])
    ensures
        order@ == seq![
            SimulationUpdateSystems::UpdateComponentSystems,
            SimulationUpdateSystems::Application,
            SimulationUpdateSystems::DespawnSimulationEntities,
        ],
{
    [
        SimulationUpdateSystems::UpdateComponentSystems,
        SimulationUpdateSystems::Application,
        SimulationUpdateSystems::DespawnSimulationEntities,
    ]
}

} // verus!
