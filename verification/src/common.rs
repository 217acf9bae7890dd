//! What the server and the client share: the scheme, the simulation core and
//! the messages that travel from the server to its clients.

use vstd::prelude::*;
use crate::common::simulation::{SimulationInstance, SimulationTick};
use crate::common::simulation::update_queue::WorldUpdate;

pub mod scheme;
pub mod simulation;

verus! {

/// Server -> Client message to reset the simulation.
#[derive(Clone, Copy, Debug, PartialEq, Eq, Structural)]
pub struct ResetClientSimulation {
    pub simulation_tick: SimulationTick,
}

/// Server -> Client message to update the current simulation time on the
/// server.
///
/// The client then advances its copy of the server's simulation, applying
/// the world updates it received before this message.
#[derive(Clone, Copy, Debug, PartialEq, Eq, Structural)]
pub struct UpdateServerTick {
    pub simulation_tick: SimulationTick,
}

/// Server -> Client message to apply a [`WorldUpdate`].
#[derive(Debug, PartialEq, Eq)]
pub struct ServerWorldUpdate<T> {
    pub update: WorldUpdate<T>,
    /// Whether the client should also replay the update while it predicts.
    /// Off for the echo of an update that the client made itself: it has
    /// predicted that one already.
    pub include_in_prediction: bool,
}

/// The parts of an app that a kind of world update has to be registered
/// with.
#[derive(Clone, Copy, Debug, PartialEq, Eq, Structural)]
pub struct UpdateRegistration {
    /// The client's receiving side: the template world takes the update
    /// from the server and the prediction world replays it.
    pub client: bool,
    /// The message that carries the update from the server to the client.
    pub message: bool,
    /// The execution queue of the instance.
    pub queue: bool,
    /// The hook that empties the queue when the simulation is reset.
    pub reset: bool,
}

/// What registering a kind of world update sets up in an instance of the
/// given role. Every instance gets a queue, and with it the hook that
/// empties the queue when the simulation is reset. The two that talk to
/// the network, the server and the client's main world, also get the
/// message, and the client's main world the receiving side.
pub fn add_world_update(instance: SimulationInstance) -> (registration: UpdateRegistration)
    ensures
        registration.queue,
        registration.reset,
        registration.message <==> instance == SimulationInstance::Server || instance
            == SimulationInstance::ClientMain,
        registration.client <==> instance == SimulationInstance::ClientMain,
{
    match instance {
        SimulationInstance::Server => UpdateRegistration {
            client: false,
            message: true,
            queue: true,
            reset: true,
        },
        SimulationInstance::ClientMain => UpdateRegistration {
            client: true,
            message: true,
            queue: true,
            reset: true,
        },
        SimulationInstance::ClientTemplate => UpdateRegistration {
            client: false,
            message: false,
            queue: true,
            reset: true,
        },
        SimulationInstance::ClientPrediction => UpdateRegistration {
            client: false,
            message: false,
            queue: true,
            reset: true,
        },
    }
}

} // verus!
