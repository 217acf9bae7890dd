//! The server side: the authoritative tick and what is sent to the clients.
//!
//! The server drives the one simulation that counts. It announces every
//! tick to its clients, tells each new client where the simulation stands,
//! and sends out the world updates. Which updates a client gets is the
//! application's business; this module makes the messages.

use vstd::prelude::*;
use vstd::arithmetic::div_mod::{lemma_fundamental_div_mod, lemma_mod_bound};
use crate::common::simulation::simulation_entity::LocalEntity;
use crate::common::simulation::update_queue::{insert_ordered, UpdateExecutionQueue, WorldUpdate};
use crate::common::simulation::{SimulationTick, SimulationTime};
use crate::common::{ResetClientSimulation, ServerWorldUpdate, UpdateServerTick};

pub mod new_pairs;

verus! {

/// The steps of the server in a frame.
#[derive(Clone, Copy, Debug, PartialEq, Eq, Structural, Hash)]
pub enum ServerSimulationSystems {
    /// New clients are told where the simulation stands.
    SendResets,
    /// The clock is driven and the application queues world updates.
    QueueUpdates,
    /// The simulation is stepped.
    StepSimulation,
}

/// The steps of the server in a frame, in the order in which they run. A
/// new client hears of the reset before it hears of any update.
pub fn server_frame_order() -> (order: [ServerSimulationSystems; 3])
    ensures
        order@ == seq![
            ServerSimulationSystems::SendResets,
            ServerSimulationSystems::QueueUpdates,
            ServerSimulationSystems::StepSimulation,
        ],
{
    [
        ServerSimulationSystems::SendResets,
        ServerSimulationSystems::QueueUpdates,
        ServerSimulationSystems::StepSimulation,
    ]
}

/// A message on its way to one client.
#[derive(Debug, PartialEq, Eq)]
pub struct Outgoing<M> {
    /// The connection of the client.
    pub client: LocalEntity,
    /// Whether the message waits when the connection is congested. One
    /// that does not is dropped then.
    pub queue: bool,
    pub message: M,
}

/// How many ticks a frame queues on the server: the whole steps that fit
/// into the time carried over plus the time of the frame, as far as the
/// ceiling and the counter allow.
pub open spec fn server_ticks(
    target_tick: nat,
    overstep: nat,
    delta: nat,
    step: nat,
    max_ticks: nat,
) -> nat {
    let whole = (overstep + delta) / step;
    let room = (u32::MAX - target_tick) as nat;
    let wanted = if whole <= max_ticks {
        whole
    } else {
        max_ticks
    };
    if wanted <= room {
        wanted
    } else {
        room
    }
}

/// Drives the clock of the server by real time.
///
/// The time of the frame is added to what earlier frames carried over.
/// One tick is queued for every whole step in the sum, but no more than
/// `max_ticks` in one frame; the rest under one step is carried over. Time
/// that the ceiling cuts off is dropped, so that a slow frame is not made
/// up for by still slower ones. Returns the number of ticks queued.
pub fn drive_simulation_time(
    time: &mut SimulationTime,
    delta: u64,
    overstep: &mut u64,
    max_ticks: u32,
) -> (queued: u32)
    ensures
        queued == server_ticks(
            old(time)@.target_tick,
            *old(overstep) as nat,
            delta as nat,
            old(time)@.step,
            max_ticks as nat,
        ),
        *final(overstep) == (*old(overstep) + delta) % (old(time)@.step as int),
        final(time)@ == old(time)@.queue_ticks(queued as nat),
{
    let width = time.step_interval().nanos();
    proof {
        time.lemma_bounded();
    }
    let total: u128 = *overstep as u128 + delta as u128;
    let whole: u128 = total / (width as u128);
    let rest: u128 = total % (width as u128);
    let room: u32 = u32::MAX - time.target_tick().0;
    let wanted: u32 = if whole <= max_ticks as u128 {
        whole as u32
    } else {
        max_ticks
    };
    let queued: u32 = if wanted <= room {
        wanted
    } else {
        room
    };
    *overstep = rest as u64;
    time.queue_ticks(queued);
    queued
}

/// After a frame less than one step is carried over, and no time is lost
/// unless the ceiling or the counter cut ticks off.
pub proof fn lemma_server_overstep(overstep: nat, delta: nat, step: nat)
    requires
        step > 0,
    ensures
        (overstep + delta) % step < step,
        ((overstep + delta) / step) * step + (overstep + delta) % step == overstep + delta,
{
    lemma_fundamental_div_mod((overstep + delta) as int, step as int);
    lemma_mod_bound((overstep + delta) as int, step as int);
    assert(step * ((overstep + delta) / step) == ((overstep + delta) / step) * step)
        by (nonlinear_arith);
}

/// The announcement of the tick at which the simulation stands, once for
/// each client. It is sent after every tick of the server.
pub fn send_simulation_time_updates(time: &SimulationTime, clients: &Vec<LocalEntity>) -> (messages:
    Vec<Outgoing<UpdateServerTick>>)
    ensures
        messages@.len() == clients@.len(),
        forall|i: int|
            0 <= i < clients@.len() ==> messages@[i] == (Outgoing {
                client: clients@[i],
                queue: true,
                message: UpdateServerTick {
                    simulation_tick: SimulationTick(time@.current_tick as u32),
                },
            }),
{
    proof {
        time.lemma_bounded();
    }
    let simulation_tick = time.current_tick();
    let mut messages: Vec<Outgoing<UpdateServerTick>> = Vec::new();
    let mut at: usize = 0;
    while at < clients.len()
        invariant
            0 <= at <= clients.len(),
            simulation_tick == SimulationTick(time@.current_tick as u32),
            messages@.len() == at,
            forall|i: int|
                0 <= i < at ==> messages@[i] == (Outgoing {
                    client: clients@[i],
                    queue: true,
                    message: UpdateServerTick { simulation_tick },
                }),
        decreases clients.len() - at,
    {
        messages.push(
            Outgoing {
                client: clients[at],
                queue: true,
                message: UpdateServerTick { simulation_tick },
            },
        );
        at += 1;
    }
    messages
}

/// The message that tells a client where the simulation stands, once for
/// each client that has just joined.
pub fn send_simulation_resets(new_clients: &Vec<LocalEntity>, time: &SimulationTime) -> (messages:
    Vec<Outgoing<ResetClientSimulation>>)
    ensures
        messages@.len() == new_clients@.len(),
        forall|i: int|
            0 <= i < new_clients@.len() ==> messages@[i] == (Outgoing {
                client: new_clients@[i],
                queue: true,
                message: ResetClientSimulation {
                    simulation_tick: SimulationTick(time@.current_tick as u32),
                },
            }),
{
    proof {
        time.lemma_bounded();
    }
    let simulation_tick = time.current_tick();
    let mut messages: Vec<Outgoing<ResetClientSimulation>> = Vec::new();
    let mut at: usize = 0;
    while at < new_clients.len()
        invariant
            0 <= at <= new_clients.len(),
            simulation_tick == SimulationTick(time@.current_tick as u32),
            messages@.len() == at,
            forall|i: int|
                0 <= i < at ==> messages@[i] == (Outgoing {
                    client: new_clients@[i],
                    queue: true,
                    message: ResetClientSimulation { simulation_tick },
                }),
        decreases new_clients.len() - at,
    {
        messages.push(
            Outgoing {
                client: new_clients[at],
                queue: true,
                message: ResetClientSimulation { simulation_tick },
            },
        );
        at += 1;
    }
    messages
}

/// Makes the messages that carry world updates to clients.
///
/// Which updates go to which client is not decided here. A simulation that
/// is deterministic only needs its changes sent; one that is not should
/// have its whole state refreshed now and then. Nor does every client need
/// to hear of everything.
#[derive(Clone, Copy, Debug, PartialEq, Eq)]
pub struct WorldUpdateSender {
    /// The clock of the server's simulation.
    pub time: SimulationTime,
}

impl WorldUpdateSender {
    /// A message with a world update stamped with the tick at which the
    /// simulation stands. This is for updates that the server makes itself.
    ///
    /// The client applies it at once, so it takes no part in prediction.
    pub fn write_now<T>(&self, client_entity: LocalEntity, queue: bool, update: T) -> (message:
        Outgoing<ServerWorldUpdate<T>>)
        ensures
            message == (Outgoing {
                client: client_entity,
                queue,
                message: ServerWorldUpdate {
                    update: WorldUpdate {
                        tick: SimulationTick(self.time@.current_tick as u32),
                        update,
                    },
                    include_in_prediction: false,
                },
            }),
    {
        proof {
            self.time.lemma_bounded();
        }
        self.write(
            client_entity,
            queue,
            false,
            WorldUpdate { tick: self.time.current_tick(), update },
        )
    }

    /// A message that has the client queue a world update on its copy of
    /// the simulation. This is for updates that a client asked for, to let
    /// all clients know of the change.
    ///
    /// With `include_in_prediction` the client also replays the update
    /// while it predicts and so sees the change sooner. The client that
    /// asked has predicted the update already: for that one it is off, or
    /// the update would count twice.
    pub fn write<T>(
        &self,
        client_entity: LocalEntity,
        queue: bool,
        include_in_prediction: bool,
        update: WorldUpdate<T>,
    ) -> (message: Outgoing<ServerWorldUpdate<T>>)
        ensures
            message == (Outgoing {
                client: client_entity,
                queue,
                message: ServerWorldUpdate { update, include_in_prediction },
            }),
    {
        Outgoing {
            client: client_entity,
            queue,
            message: ServerWorldUpdate { update, include_in_prediction },
        }
    }
}

/// Takes on an update that a client asked for, at the tick the client
/// gave it.
///
/// Every client is told of the update. All but the one that asked also
/// include it in their prediction; the one that asked has predicted it
/// already. The update is then queued on the server's own simulation. One
/// that is stamped in the past is applied all the same, in the next tick.
pub fn reconcile_update<T: Clone>(
    sender: &WorldUpdateSender,
    requesting_client: LocalEntity,
    clients: &Vec<LocalEntity>,
    update: WorldUpdate<T>,
    queue: &mut UpdateExecutionQueue<T>,
) -> (messages: Vec<Outgoing<ServerWorldUpdate<T>>>)
    requires
        old(queue).0.wf(),
    ensures
        final(queue).0.wf(),
        final(queue).0@ == insert_ordered(old(queue).0@, update),
        messages@.len() == clients@.len(),
        forall|i: int|
            0 <= i < clients@.len() ==> {
                &&& (#[trigger] messages@[i]).client == clients@[i]
                &&& messages@[i].queue
                &&& messages@[i].message.include_in_prediction == (clients@[i] != requesting_client)
                &&& messages@[i].message.update.tick == update.tick
                &&& cloned(update.update, messages@[i].message.update.update)
            },
{
    let mut messages: Vec<Outgoing<ServerWorldUpdate<T>>> = Vec::new();
    let mut at: usize = 0;
    while at < clients.len()
        invariant
            0 <= at <= clients.len(),
            messages@.len() == at,
            forall|i: int|
                0 <= i < at ==> {
                    &&& (#[trigger] messages@[i]).client == clients@[i]
                    &&& messages@[i].queue
                    &&& messages@[i].message.include_in_prediction == (clients@[i]
                        != requesting_client)
                    &&& messages@[i].message.update.tick == update.tick
                    &&& cloned(update.update, messages@[i].message.update.update)
                },
        decreases clients.len() - at,
    {
        let client_entity = clients[at];
        messages.push(
            sender.write(
                client_entity,
                true,
                client_entity.0 != requesting_client.0,
                update.clone(),
            ),
        );
        at += 1;
    }
    queue.0.insert(update);
    messages
}

} // verus!
