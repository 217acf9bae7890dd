//! A small game on top of the prediction core: players that walk.
//!
//! The server owns the players. A client steers its own player: it applies
//! each change of input to its own simulation at once, records it for
//! prediction and asks the server to do the same. The server takes the
//! change on at the tick the client gave it and tells every client.

use vstd::prelude::*;
use crate::client::prediction::PredictionUpdates;
use crate::client::{holds_copy, PredictionUpdateCreator};
use crate::common::simulation::simulation_entity::{
    LocalEntity, SimulationEntity, SimulationEntityMap,
};
use crate::common::simulation::update_component::UpdateComponent;
use crate::common::simulation::update_queue::{
    insert_ordered, ReadyUpdate, ReadyUpdates, UpdateExecutionQueue, WorldUpdate,
};
use crate::common::simulation::{SimulationTick, SimulationTime};
use crate::common::ServerWorldUpdate;
use crate::server::new_pairs::NewPairs;
use crate::server::{reconcile_update, Outgoing, WorldUpdateSender};

verus! {

/// The kinds of streams that the game opens on a connection.
#[derive(Clone, Copy, Debug, PartialEq, Eq, Structural)]
pub enum StreamHeader {
    Messages,
}

impl StreamHeader {
    /// The number that opens a stream of this kind.
    pub fn id(self) -> (id: u16)
        ensures
            id == 0,
    {
        match self {
            StreamHeader::Messages => 0,
        }
    }
}

/// Where a connection stands.
#[derive(Clone, Copy, Debug, PartialEq, Eq, Structural)]
pub enum ConnectionStatus {
    Connecting,
    Established,
    Closed,
    Failed,
}

/// Whether a connection in this state has joined the game and receives its
/// updates: an established one has, any other has not.
pub fn join_clients(status: ConnectionStatus) -> (joined: bool)
    ensures
        joined == (status == ConnectionStatus::Established),
{
    match status {
        ConnectionStatus::Established => true,
        _ => false,
    }
}

/// Hands out simulation entities, each one once.
#[derive(Debug)]
pub struct SimulationEntityAllocator {
    next_id: u64,
}

impl View for SimulationEntityAllocator {
    type V = nat;

    /// The id that is handed out next. Every id below it has been handed
    /// out, none from it on.
    closed spec fn view(&self) -> nat {
        self.next_id as nat
    }
}

impl SimulationEntityAllocator {
    /// An allocator that has handed out nothing.
    pub fn new() -> (allocator: SimulationEntityAllocator)
        ensures
            allocator@ == 0,
    {
        SimulationEntityAllocator { next_id: 0 }
    }

    /// The id that is handed out next.
    pub fn next_id(&self) -> (id: u64)
        ensures
            id == self@,
    {
        self.next_id
    }

    /// A simulation entity that was never handed out before.
    pub fn next(&mut self) -> (entity: SimulationEntity)
        requires
            old(self)@ < u64::MAX,
        ensures
            entity.0 == old(self)@,
            final(self)@ == old(self)@ + 1,
    {
        let id = self.next_id;
        self.next_id = self.next_id + 1;
        SimulationEntity(id)
    }
}

impl Default for SimulationEntityAllocator {
    fn default() -> (allocator: SimulationEntityAllocator)
        ensures
            allocator@ == 0,
    {
        SimulationEntityAllocator::new()
    }
}

/// The keys that a player holds down.
#[derive(Clone, Copy, Debug, PartialEq, Eq, Structural)]
pub struct PlayerInput {
    pub forward: bool,
    pub backward: bool,
    pub right: bool,
    pub left: bool,
}

impl Default for PlayerInput {
    fn default() -> (input: PlayerInput)
        ensures
            input == (PlayerInput { forward: false, backward: false, right: false, left: false }),
    {
        PlayerInput { forward: false, backward: false, right: false, left: false }
    }
}

/// Where one pair of opposite keys pulls: towards the first, towards the
/// second, or nowhere when both or neither are held.
pub open spec fn axis(positive: bool, negative: bool) -> int {
    if positive && !negative {
        1
    } else if negative && !positive {
        -1
    } else {
        0
    }
}

impl PlayerInput {
    /// The direction in which the input pulls before it is normalised:
    /// forward against backward, right against left.
    pub fn movement_vector(&self) -> (direction: (i8, i8))
        ensures
            direction.0 == axis(self.forward, self.backward),
            direction.1 == axis(self.right, self.left),
    {
        let along: i8 = match (self.forward, self.backward) {
            (true, false) => 1,
            (false, true) => -1,
            _ => 0,
        };
        let across: i8 = match (self.right, self.left) {
            (true, false) => 1,
            (false, true) => -1,
            _ => 0,
        };
        (along, across)
    }
}

/// The world update that brings a player into the simulation.
#[derive(Clone, Copy, Debug, PartialEq, Eq, Structural)]
pub struct SpawnPlayer {
    pub entity: SimulationEntity,
}

/// Server -> Client message to set the local player of the client.
#[derive(Clone, Copy, Debug, PartialEq, Eq, Structural)]
pub struct SetLocalPlayer {
    pub entity: SimulationEntity,
}

/// Client -> Server message to request movement of the player.
#[derive(Clone, Copy, Debug, PartialEq, Eq, Structural)]
pub struct RequestMovePlayer {
    pub tick: SimulationTick,
    pub input: PlayerInput,
}

/// The simulation entities of the players that `updates` bring in.
pub open spec fn spawned_players(updates: Seq<ReadyUpdate<SpawnPlayer>>) -> Seq<SimulationEntity> {
    updates.map_values(|ready: ReadyUpdate<SpawnPlayer>| ready.update.entity)
}

/// Applies the spawn updates that are ready in this tick: one player is
/// spawned for each, with the simulation entity that the update names.
pub fn spawn_players(updates: &ReadyUpdates<SpawnPlayer>) -> (players: Vec<SimulationEntity>)
    ensures
        players@ == spawned_players(updates.updates@),
{
    let mut players: Vec<SimulationEntity> = Vec::new();
    let mut at: usize = 0;
    while at < updates.updates.len()
        invariant
            0 <= at <= updates.updates@.len(),
            players@ == spawned_players(updates.updates@.take(at as int)),
        decreases updates.updates@.len() - at,
    {
        players.push(updates.updates[at].update.entity);
        assert(updates.updates@.take(at + 1) == updates.updates@.take(at as int).push(
            updates.updates@[at as int],
        ));
        at += 1;
    }
    assert(updates.updates@.take(at as int) == updates.updates@);
    players
}

/// A player that the server has made for a client.
#[derive(Debug, PartialEq, Eq)]
pub struct ClientPlayer {
    /// The connection of the client.
    pub client: LocalEntity,
    /// The simulation entity of its player.
    pub entity: SimulationEntity,
    /// The message that tells the client which player is its own.
    pub message: Outgoing<SetLocalPlayer>,
}

/// Makes a player for each client that has just joined: the player gets a
/// fresh simulation entity and the client is told which one it is.
pub fn allocate_players(
    new_clients: &Vec<LocalEntity>,
    allocator: &mut SimulationEntityAllocator,
) -> (players: Vec<ClientPlayer>)
    requires
        old(allocator)@ + new_clients@.len() <= u64::MAX,
    ensures
        final(allocator)@ == old(allocator)@ + new_clients@.len(),
        players@.len() == new_clients@.len(),
        forall|i: int|
            0 <= i < new_clients@.len() ==> {
                &&& (#[trigger] players@[i]).client == new_clients@[i]
                &&& players@[i].entity.0 == old(allocator)@ + i
                &&& players@[i].message == (Outgoing {
                    client: new_clients@[i],
                    queue: true,
                    message: SetLocalPlayer { entity: players@[i].entity },
                })
            },
{
    let mut players: Vec<ClientPlayer> = Vec::new();
    let mut at: usize = 0;
    while at < new_clients.len()
        invariant
            0 <= at <= new_clients.len(),
            old(allocator)@ + new_clients@.len() <= u64::MAX,
            allocator@ == old(allocator)@ + at,
            players@.len() == at,
            forall|i: int|
                0 <= i < at ==> {
                    &&& (#[trigger] players@[i]).client == new_clients@[i]
                    &&& players@[i].entity.0 == old(allocator)@ + i
                    &&& players@[i].message == (Outgoing {
                        client: new_clients@[i],
                        queue: true,
                        message: SetLocalPlayer { entity: players@[i].entity },
                    })
                },
        decreases new_clients.len() - at,
    {
        let client = new_clients[at];
        let entity = allocator.next();
        players.push(
            ClientPlayer {
                client,
                entity,
                message: Outgoing { client, queue: true, message: SetLocalPlayer { entity } },
            },
        );
        at += 1;
    }
    players
}

/// A player as a client has to hear of it.
#[derive(Debug, PartialEq, Eq)]
pub struct KnownPlayer<S> {
    /// The connection of the client that hears of the player.
    pub client: LocalEntity,
    pub entity: SimulationEntity,
    pub input: PlayerInput,
    pub state: S,
}

/// The three messages that tell a client of a player.
#[derive(Debug, PartialEq, Eq)]
pub struct PlayerInit<S> {
    pub spawn: Outgoing<ServerWorldUpdate<SpawnPlayer>>,
    pub input: Outgoing<ServerWorldUpdate<UpdateComponent<PlayerInput>>>,
    pub state: Outgoing<ServerWorldUpdate<UpdateComponent<S>>>,
}

/// What tells `player.client` of the player when the simulation stands at
/// `tick`: the player is spawned and gets its input and its state, all in
/// that tick and none of it in prediction.
pub open spec fn player_init<S>(player: KnownPlayer<S>, tick: SimulationTick) -> PlayerInit<S> {
    PlayerInit {
        spawn: Outgoing {
            client: player.client,
            queue: true,
            message: ServerWorldUpdate {
                update: WorldUpdate { tick, update: SpawnPlayer { entity: player.entity } },
                include_in_prediction: false,
            },
        },
        input: Outgoing {
            client: player.client,
            queue: true,
            message: ServerWorldUpdate {
                update: WorldUpdate {
                    tick,
                    update: UpdateComponent { entity: player.entity, component: player.input },
                },
                include_in_prediction: false,
            },
        },
        state: Outgoing {
            client: player.client,
            queue: true,
            message: ServerWorldUpdate {
                update: WorldUpdate {
                    tick,
                    update: UpdateComponent { entity: player.entity, component: player.state },
                },
                include_in_prediction: false,
            },
        },
    }
}

/// Tells clients of players: for each new pair of a client and a player
/// the client is sent the player, its input and its state.
pub fn init_players<S>(updates: &WorldUpdateSender, players: Vec<KnownPlayer<S>>) -> (messages: Vec<
    PlayerInit<S>,
>)
    ensures
        messages@ == players@.map_values(
            |player: KnownPlayer<S>|
                player_init(player, SimulationTick(updates.time@.current_tick as u32)),
        ),
{
    let mut messages: Vec<PlayerInit<S>> = Vec::new();
    let ghost all = players@;
    let ghost tick = SimulationTick(updates.time@.current_tick as u32);
    for player in iter: players
        invariant
            iter.seq() == all,
            tick == SimulationTick(updates.time@.current_tick as u32),
            messages@ == all.take(iter.index() as int).map_values(
                |player: KnownPlayer<S>| player_init(player, tick),
            ),
    {
        let ghost at = iter.index() as int;
        let KnownPlayer { client, entity, input, state } = player;
        let spawn = updates.write_now(client, true, SpawnPlayer { entity });
        let input = updates.write_now(client, true, UpdateComponent { entity, component: input });
        let state = updates.write_now(client, true, UpdateComponent { entity, component: state });
        messages.push(PlayerInit { spawn, input, state });
        assert(all.take(at + 1) == all.take(at).push(player));
        assert(messages@ =~= all.take(at + 1).map_values(
            |player: KnownPlayer<S>| player_init(player, tick),
        ));
    }
    assert(all.take(all.len() as int) == all);
    messages
}

/// Takes on the move that a client asked for: the input of its player is
/// set at the tick the client gave. Every client is told; all but the one
/// that asked take the update into their prediction.
pub fn accept_move_players(
    sender: &WorldUpdateSender,
    requesting_client: LocalEntity,
    player: SimulationEntity,
    request: RequestMovePlayer,
    clients: &Vec<LocalEntity>,
    queue: &mut UpdateExecutionQueue<UpdateComponent<PlayerInput>>,
) -> (messages: Vec<Outgoing<ServerWorldUpdate<UpdateComponent<PlayerInput>>>>)
    requires
        old(queue).0.wf(),
    ensures
        final(queue).0.wf(),
        final(queue).0@ == insert_ordered(
            old(queue).0@,
            WorldUpdate {
                tick: request.tick,
                update: UpdateComponent { entity: player, component: request.input },
            },
        ),
        messages@.len() == clients@.len(),
        forall|i: int|
            0 <= i < clients@.len() ==> {
                &&& (#[trigger] messages@[i]).client == clients@[i]
                &&& messages@[i].queue
                &&& messages@[i].message.include_in_prediction == (clients@[i] != requesting_client)
                &&& messages@[i].message.update.tick == request.tick
                &&& messages@[i].message.update.update.entity == player
                &&& messages@[i].message.update.update.component == request.input
            },
{
    let update = WorldUpdate {
        tick: request.tick,
        update: UpdateComponent { entity: player, component: request.input },
    };
    let messages = reconcile_update(sender, requesting_client, clients, update, queue);
    proof {
        assert forall|i: int| 0 <= i < clients@.len() implies {
            &&& (#[trigger] messages@[i]).message.update.update.entity == player
            &&& messages@[i].message.update.update.component == request.input
        } by {
            let copy = messages@[i].message.update.update;
            assert(cloned(update.update, copy));
        }
    }
    messages
}

/// Looks at the input of the local player in this frame.
///
/// Nothing happens while the input is what it was. A change is always
/// remembered. When the client knows its player the change becomes a world
/// update for the tick at which the main world stands: it is queued there
/// and recorded for prediction, and the request that asks the server for
/// the same is returned.
pub fn update_player_input(
    player_input: PlayerInput,
    last_input: &mut PlayerInput,
    local_player: Option<SimulationEntity>,
    time: &SimulationTime,
    simulation_queue: &mut UpdateExecutionQueue<UpdateComponent<PlayerInput>>,
    prediction_updates: &mut PredictionUpdates<UpdateComponent<PlayerInput>>,
) -> (request: Option<RequestMovePlayer>)
    requires
        old(simulation_queue).0.wf(),
        old(prediction_updates).0.wf(),
    ensures
        final(simulation_queue).0.wf(),
        final(prediction_updates).0.wf(),
        *final(last_input) == player_input,
        request.is_some() <==> player_input != *old(last_input) && local_player.is_some(),
        request.is_none() ==> final(simulation_queue).0@ == old(simulation_queue).0@,
        request.is_none() ==> final(prediction_updates).0@ == old(prediction_updates).0@,
        request matches Some(request) ==> {
            &&& request == (RequestMovePlayer {
                tick: SimulationTick(time@.current_tick as u32),
                input: player_input,
            })
            &&& holds_copy(
                old(simulation_queue).0@,
                final(simulation_queue).0@,
                WorldUpdate {
                    tick: request.tick,
                    update: UpdateComponent {
                        entity: local_player.unwrap(),
                        component: player_input,
                    },
                },
            )
            &&& holds_copy(
                old(prediction_updates).0@,
                final(prediction_updates).0@,
                WorldUpdate {
                    tick: request.tick,
                    update: UpdateComponent {
                        entity: local_player.unwrap(),
                        component: player_input,
                    },
                },
            )
        },
{
    if last_input.forward == player_input.forward && last_input.backward == player_input.backward
        && last_input.right == player_input.right && last_input.left == player_input.left {
        return None;
    }
    *last_input = player_input;
    let player_simulation_entity = match local_player {
        Some(entity) => entity,
        None => {
            return None;
        },
    };
    proof {
        time.lemma_bounded();
    }
    let update = PredictionUpdateCreator::create(
        time,
        simulation_queue,
        prediction_updates,
        UpdateComponent { entity: player_simulation_entity, component: player_input },
    );
    Some(RequestMovePlayer { tick: update.tick, input: player_input })
}

/// What an update of a box asks of the world.
#[derive(Debug, PartialEq, Eq)]
pub enum BoxUpdate<B> {
    /// Give the box to the local entity. The host skips the update, with a
    /// warning, when that entity is no box.
    Update { entity: LocalEntity, example_box: B },
    /// Spawn a box with the simulation entity.
    Spawn { simulation_entity: SimulationEntity, example_box: B },
}

/// What one update of a box asks: it is set where the simulation entity
/// exists locally and spawned where it does not.
pub open spec fn box_update<B>(update: UpdateComponent<B>, index: Map<u64, u64>) -> BoxUpdate<B> {
    if index.dom().contains(update.entity.0) {
        BoxUpdate::Update {
            entity: LocalEntity(index[update.entity.0]),
            example_box: update.component,
        }
    } else {
        BoxUpdate::Spawn { simulation_entity: update.entity, example_box: update.component }
    }
}

/// Applies the box updates that are ready in this tick.
pub fn apply_update_boxes<B>(
    map: &SimulationEntityMap,
    updates: ReadyUpdates<UpdateComponent<B>>,
) -> (applied: Vec<BoxUpdate<B>>)
    ensures
        applied@ == updates.updates@.map_values(
            |ready: ReadyUpdate<UpdateComponent<B>>| box_update(ready.update, map@),
        ),
{
    let mut applied: Vec<BoxUpdate<B>> = Vec::new();
    let ghost all = updates.updates@;
    for ready in iter: updates.updates
        invariant
            iter.seq() == all,
            applied@ == all.take(iter.index() as int).map_values(
                |ready: ReadyUpdate<UpdateComponent<B>>| box_update(ready.update, map@),
            ),
    {
        let ghost at = iter.index() as int;
        let UpdateComponent { entity, component } = ready.update;
        match map.get(entity) {
            Some(box_entity) => {
                applied.push(BoxUpdate::Update { entity: box_entity, example_box: component });
            },
            None => {
                applied.push(
                    BoxUpdate::Spawn { simulation_entity: entity, example_box: component },
                );
            },
        }
        assert(all.take(at + 1) == all.take(at).push(ready));
        assert(applied@ =~= all.take(at + 1).map_values(
            |ready: ReadyUpdate<UpdateComponent<B>>| box_update(ready.update, map@),
        ));
    }
    assert(all.take(all.len() as int) == all);
    applied
}

/// The components and the clients of a server: for each kind those that
/// were added in this tick, and all that are there.
#[derive(Debug)]
pub struct InitializePairs {
    pub added_components: Vec<LocalEntity>,
    pub existing_components: Vec<LocalEntity>,
    pub added_clients: Vec<LocalEntity>,
    pub existing_clients: Vec<LocalEntity>,
}

impl InitializePairs {
    /// Returns pairs of a client and an entity with the component that the
    /// client has not been told of: first every added component for every
    /// client that was there before, then every component for every added
    /// client.
    pub fn iter(self) -> (pairs: Vec<(LocalEntity, LocalEntity)>)
        ensures
            pairs@ == (NewPairs {
                added_a: self.added_components,
                existing_a: self.existing_components,
                added_b: self.added_clients,
                existing_b: self.existing_clients,
            }).pairs().map_values(|pair: (LocalEntity, LocalEntity)| (pair.1, pair.0)),
    {
        let new_pairs = NewPairs {
            added_a: self.added_components,
            existing_a: self.existing_components,
            added_b: self.added_clients,
            existing_b: self.existing_clients,
        };
        let found = new_pairs.iter();
        let mut pairs: Vec<(LocalEntity, LocalEntity)> = Vec::new();
        let mut at: usize = 0;
        while at < found.len()
            invariant
                0 <= at <= found@.len(),
                pairs@ == found@.take(at as int).map_values(
                    |pair: (LocalEntity, LocalEntity)| (pair.1, pair.0),
                ),
            decreases found@.len() - at,
        {
            let (component_entity, client_entity) = found[at];
            pairs.push((client_entity, component_entity));
            assert(found@.take(at + 1) == found@.take(at as int).push(found@[at as int]));
            assert(pairs@ =~= found@.take(at + 1).map_values(
                |pair: (LocalEntity, LocalEntity)| (pair.1, pair.0),
            ));
            at += 1;
        }
        assert(found@.take(at as int) == found@);
        pairs
    }
}

} // verus!
