//! Simulation entities and the index that finds them in a world.
//!
//! A simulation entity is a 64-bit id that names one entity in every
//! instance of the simulation. Each world keeps an index from the ids to its
//! own entity handles. The index follows the life of the id component: when
//! an entity gets the id it is indexed, when the id is replaced or the
//! entity goes it is taken out again.

use vstd::prelude::*;
use bevy::platform::collections::HashMap;
use crate::common::simulation::update_queue::{ReadyUpdate, ReadyUpdates};

verus! {

/// The hash map of bevy's platform collections. Nothing inside it is
/// visible to the verifier; what it holds is named by
/// [`hash_map_entries`].
#[verifier::external_type_specification]
#[verifier::external_body]
#[verifier::reject_recursive_types(K)]
#[verifier::reject_recursive_types(V)]
#[verifier::reject_recursive_types(S)]
pub struct ExHashMap<K, V, S>(bevy::platform::collections::HashMap<K, V, S>);

/// The hasher with a fixed seed that bevy's hash map uses by default.
#[verifier::external_type_specification]
#[verifier::external_body]
pub struct ExFixedHasher(bevy::platform::hash::FixedHasher);

/// The key-value pairs that a hash map from ids to entity handles holds.
pub uninterp spec fn hash_map_entries(map: HashMap<u64, u64>) -> Map<u64, u64>;

/// `HashMap::new`: a map that holds nothing.
#[verifier::external_body]
pub(crate) fn hash_map_new() -> (table: HashMap<u64, u64>)
    ensures
        hash_map_entries(table) == (Map::<u64, u64>::empty()),
{
    HashMap::new()
}

/// `HashMap::get`: the value stored under `key`, if there is one. The map
/// hands out a reference; the wrapper copies the integer behind it.
#[verifier::external_body]
pub(crate) fn hash_map_get(map: &HashMap<u64, u64>, key: u64) -> (value: Option<u64>)
    ensures
        value == if hash_map_entries(*map).dom().contains(key) {
            Some(hash_map_entries(*map)[key])
        } else {
            None
        },
{
    map.get(&key).copied()
}

/// `HashMap::insert`: afterwards `key` maps to `value` and every other key
/// to what it mapped to before. Returns the value that `key` had, if any.
#[verifier::external_body]
pub(crate) fn hash_map_insert(map: &mut HashMap<u64, u64>, key: u64, value: u64) -> (previous: Option<u64>)
    ensures
        hash_map_entries(*final(map)) == hash_map_entries(*old(map)).insert(key, value),
        previous == if hash_map_entries(*old(map)).dom().contains(key) {
            Some(hash_map_entries(*old(map))[key])
        } else {
            None
        },
{
    map.insert(key, value)
}

/// `HashMap::remove`: afterwards `key` is absent and every other key maps
/// to what it mapped to before. Returns the value that `key` had, if any.
#[verifier::external_body]
pub(crate) fn hash_map_remove(map: &mut HashMap<u64, u64>, key: u64) -> (previous: Option<u64>)
    ensures
        hash_map_entries(*final(map)) == hash_map_entries(*old(map)).remove(key),
        previous == if hash_map_entries(*old(map)).dom().contains(key) {
            Some(hash_map_entries(*old(map))[key])
        } else {
            None
        },
{
    map.remove(&key)
}

/// A unique id that names one entity across all instances of a simulation.
///
/// World updates and extraction use it to say which entity they mean. Only
/// the server hands out new ids; a client only ever sees them.
#[derive(Clone, Copy, Debug, PartialEq, Eq, Structural, Hash)]
pub struct SimulationEntity(pub u64);

/// The handle of an entity in the store of one world, as its 64 bits.
#[derive(Clone, Copy, Debug, PartialEq, Eq, Structural, Hash)]
pub struct LocalEntity(pub u64);

/// The index of one world: simulation entity to local entity.
pub struct SimulationEntityMap {
    map: HashMap<u64, u64>,
}

impl View for SimulationEntityMap {
    type V = Map<u64, u64>;

    /// The id of each indexed simulation entity, mapped to the bits of its
    /// local entity.
    closed spec fn view(&self) -> Map<u64, u64> {
        hash_map_entries(self.map)
    }
}

impl SimulationEntityMap {
    /// An index that holds nothing.
    pub fn new() -> (map: SimulationEntityMap)
        ensures
            map@ == Map::<u64, u64>::empty(),
    {
        SimulationEntityMap { map: hash_map_new() }
    }

    /// Gets the local entity of the given simulation entity if it is indexed.
    pub fn get(&self, id: SimulationEntity) -> (local: Option<LocalEntity>)
        ensures
            local == if self@.dom().contains(id.0) {
                Some(LocalEntity(self@[id.0]))
            } else {
                None
            },
    {
        match hash_map_get(&self.map, id.0) {
            Some(bits) => Some(LocalEntity(bits)),
            None => None,
        }
    }

    /// Indexes `local` under `id`. An entity that was indexed under `id`
    /// before is no longer.
    pub fn insert(&mut self, id: SimulationEntity, local: LocalEntity)
        ensures
            final(self)@ == old(self)@.insert(id.0, local.0),
    {
        let _ = hash_map_insert(&mut self.map, id.0, local.0);
    }

    /// Takes `id` out of the index.
    pub fn remove(&mut self, id: SimulationEntity)
        ensures
            final(self)@ == old(self)@.remove(id.0),
    {
        let _ = hash_map_remove(&mut self.map, id.0);
    }
}


impl Default for SimulationEntityMap {
    fn default() -> (map: SimulationEntityMap)
        ensures
            map@ == Map::<u64, u64>::empty(),
    {
        SimulationEntityMap::new()
    }
}

impl SimulationEntityMap {
    /// Forgets every entity, as a reset of the simulation does.
    pub fn clear(&mut self)
        ensures
            final(self)@ == Map::<u64, u64>::empty(),
    {
        self.map = hash_map_new();
    }
}

/// No two simulation entities of `index` share a local entity: the index is
/// one-to-one between the ids it holds and the entities it names.
pub open spec fn is_bijective(index: Map<u64, u64>) -> bool {
    forall|a: u64, b: u64|
        index.dom().contains(a) && index.dom().contains(b) && #[trigger] index[a]
            == #[trigger] index[b] ==> a == b
}

/// The local entities of those of `ids` that `index` knows, in the order of
/// `ids`.
pub open spec fn known_locals(ids: Seq<SimulationEntity>, index: Map<u64, u64>) -> Seq<
    LocalEntity,
>
    decreases ids.len(),
{
    if ids.len() == 0 {
        Seq::empty()
    } else if index.dom().contains(ids.last().0) {
        known_locals(ids.drop_last(), index).push(LocalEntity(index[ids.last().0]))
    } else {
        known_locals(ids.drop_last(), index)
    }
}

/// Those of `ids` that `index` does not know, in the order of `ids`.
pub open spec fn unknown_ids(ids: Seq<SimulationEntity>, index: Map<u64, u64>) -> Seq<
    SimulationEntity,
>
    decreases ids.len(),
{
    if ids.len() == 0 {
        Seq::empty()
    } else if index.dom().contains(ids.last().0) {
        unknown_ids(ids.drop_last(), index)
    } else {
        unknown_ids(ids.drop_last(), index).push(ids.last())
    }
}

/// Whether `local` is the local entity of one of `ids`.
pub open spec fn is_claimed(ids: Seq<SimulationEntity>, index: Map<u64, u64>, local: u64) -> bool {
    exists|i: int|
        0 <= i < ids.len() && index.dom().contains(#[trigger] ids[i].0) && index[ids[i].0]
            == local
}

/// Where in the order of despawns an entity stands: lower goes first.
/// Children get a lower priority than their parents so that the parents
/// outlive them.
#[derive(Clone, Copy, Debug, PartialEq, Eq, Structural, Hash)]
pub struct ExtractDespawnPriority(pub i32);

impl Default for ExtractDespawnPriority {
    fn default() -> (priority: ExtractDespawnPriority)
        ensures
            priority.0 == 0,
    {
        ExtractDespawnPriority(0)
    }
}

/// An entity of the target world that carries a simulation entity, as
/// extraction finds it.
#[derive(Clone, Copy, Debug, PartialEq, Eq, Structural)]
pub struct TargetEntity {
    pub local: LocalEntity,
    pub priority: ExtractDespawnPriority,
}

/// The entities of `target` that none of the `source` ids lays claim to, in
/// the order of `target`.
pub open spec fn unclaimed(
    target: Seq<TargetEntity>,
    source: Seq<SimulationEntity>,
    index: Map<u64, u64>,
) -> Seq<TargetEntity>
    decreases target.len(),
{
    if target.len() == 0 {
        Seq::empty()
    } else if is_claimed(source, index, target.last().local.0) {
        unclaimed(target.drop_last(), source, index)
    } else {
        unclaimed(target.drop_last(), source, index).push(target.last())
    }
}

/// Whether the priorities of `entities` never decrease from front to back.
pub open spec fn is_prioritized(entities: Seq<TargetEntity>) -> bool {
    forall|i: int, j: int|
        0 <= i <= j < entities.len() ==> entities[i].priority.0 <= entities[j].priority.0
}

/// How many of `entities` have a priority of at most `priority`.
pub open spec fn count_up_to(entities: Seq<TargetEntity>, priority: ExtractDespawnPriority) -> nat
    decreases entities.len(),
{
    if entities.len() == 0 {
        0
    } else {
        count_up_to(entities.drop_last(), priority) + if entities.last().priority.0
            <= priority.0 {
            1nat
        } else {
            0nat
        }
    }
}

/// `entities` in the order in which they are despawned: by ascending
/// priority, and among equals in the order in which they stand.
pub open spec fn despawn_order(entities: Seq<TargetEntity>) -> Seq<TargetEntity>
    decreases entities.len(),
{
    if entities.len() == 0 {
        Seq::empty()
    } else {
        let before = despawn_order(entities.drop_last());
        before.insert(count_up_to(before, entities.last().priority) as int, entities.last())
    }
}

/// In a prioritized sequence `split` is the count up to `priority` exactly
/// when everything before it has at most that priority and nothing from it
/// on has.
proof fn lemma_count_up_to_is_split(
    entities: Seq<TargetEntity>,
    priority: ExtractDespawnPriority,
    split: int,
)
    requires
        0 <= split <= entities.len(),
        forall|i: int| 0 <= i < split ==> entities[i].priority.0 <= priority.0,
        forall|i: int| split <= i < entities.len() ==> entities[i].priority.0 > priority.0,
    ensures
        count_up_to(entities, priority) == split,
    decreases entities.len(),
{
    if entities.len() > 0 {
        let rest = entities.drop_last();
        if split == entities.len() {
            lemma_count_up_to_is_split(rest, priority, split - 1);
        } else {
            lemma_count_up_to_is_split(rest, priority, split);
        }
    }
}

/// Putting an entity at its split keeps the sequence prioritized.
proof fn lemma_insert_at_split_is_prioritized(
    entities: Seq<TargetEntity>,
    entity: TargetEntity,
    split: int,
)
    requires
        is_prioritized(entities),
        0 <= split <= entities.len(),
        forall|i: int| 0 <= i < split ==> entities[i].priority.0 <= entity.priority.0,
        forall|i: int| split <= i < entities.len() ==> entities[i].priority.0 > entity.priority.0,
    ensures
        is_prioritized(entities.insert(split, entity)),
{
    let after = entities.insert(split, entity);
    assert forall|i: int, j: int| 0 <= i <= j < after.len() implies after[i].priority.0
        <= after[j].priority.0 by {
        if i < split && j > split {
            assert(after[i] == entities[i]);
            assert(after[j] == entities[j - 1]);
        } else if i < split && j < split {
            assert(after[i] == entities[i]);
            assert(after[j] == entities[j]);
        } else if i > split {
            assert(after[i] == entities[i - 1]);
            assert(after[j] == entities[j - 1]);
        } else if i == split && j > split {
            assert(after[j] == entities[j - 1]);
        } else if j == split && i < split {
            assert(after[i] == entities[i]);
        }
    }
}

/// One more id lays claim to what the ids before it lay claim to and to
/// its own local entity, if it has one.
proof fn lemma_one_more_claim(
    ids: Seq<SimulationEntity>,
    id: SimulationEntity,
    index: Map<u64, u64>,
    local: u64,
)
    ensures
        is_claimed(ids.push(id), index, local) <==> is_claimed(ids, index, local) || (
        index.dom().contains(id.0) && index[id.0] == local),
{
    let more = ids.push(id);
    if is_claimed(more, index, local) {
        let i = choose|i: int|
            0 <= i < more.len() && index.dom().contains(#[trigger] more[i].0) && index[more[i].0]
                == local;
        if i < ids.len() {
            assert(ids[i] == more[i]);
        }
    }
    if is_claimed(ids, index, local) {
        let i = choose|i: int|
            0 <= i < ids.len() && index.dom().contains(#[trigger] ids[i].0) && index[ids[i].0]
                == local;
        assert(more[i] == ids[i]);
    }
    if index.dom().contains(id.0) && index[id.0] == local {
        assert(more[ids.len() as int] == id);
    }
}

/// The local entities that `source` lays claim to, as the keys of a hash
/// map.
pub(crate) fn claimed_locals(source: &Vec<SimulationEntity>, index: &SimulationEntityMap) -> (claimed:
    HashMap<u64, u64>)
    ensures
        forall|local: u64|
            hash_map_entries(claimed).dom().contains(local) <==> is_claimed(
                source@,
                index@,
                local,
            ),
{
    let mut claimed = hash_map_new();
    let mut at: usize = 0;
    while at < source.len()
        invariant
            0 <= at <= source.len(),
            forall|local: u64|
                hash_map_entries(claimed).dom().contains(local) <==> is_claimed(
                    source@.take(at as int),
                    index@,
                    local,
                ),
        decreases source.len() - at,
    {
        let id = source[at];
        let ghost seen = source@.take(at as int);
        assert(source@.take(at + 1) == seen.push(id));
        proof {
            assert forall|local: u64|
                is_claimed(seen.push(id), index@, local) <==> is_claimed(seen, index@, local) || (
                index@.dom().contains(id.0) && index@[id.0] == local) by {
                lemma_one_more_claim(seen, id, index@, local);
            }
        }
        match index.get(id) {
            Some(local) => {
                let _ = hash_map_insert(&mut claimed, local.0, 0);
            },
            None => {},
        }
        at += 1;
    }
    assert(source@.take(at as int) == source@);
    claimed
}

/// What extracting the entities of a source world asks of the target world.
#[derive(Debug, PartialEq, Eq)]
pub struct ExtractedEntities {
    /// The simulation entities to spawn: those of the source that the target
    /// does not have yet.
    pub spawn: Vec<SimulationEntity>,
    /// The entities to despawn, in this order: those of the target that the
    /// source no longer has.
    pub despawn: Vec<TargetEntity>,
}

/// Extracts the simulation entities of a source world into a target world.
///
/// Every entity of the target that carries a simulation entity is marked
/// as removed. For every id of the source the mark is taken off the
/// target's entity of that id, or, where the target has none, the id is
/// spawned. What is still marked is despawned, lowest priority first.
///
/// `source` holds the ids found in the source world, `target` the marked
/// entities of the target world and `index` the index of the target world.
pub fn extract_simulation_entities(
    source: &Vec<SimulationEntity>,
    target: &Vec<TargetEntity>,
    index: &SimulationEntityMap,
) -> (extracted: ExtractedEntities)
    ensures
        extracted.spawn@ == unknown_ids(source@, index@),
        extracted.despawn@ == despawn_order(unclaimed(target@, source@, index@)),
{
    let mut spawn: Vec<SimulationEntity> = Vec::new();
    let mut at: usize = 0;
    while at < source.len()
        invariant
            0 <= at <= source.len(),
            spawn@ == unknown_ids(source@.take(at as int), index@),
        decreases source.len() - at,
    {
        let id = source[at];
        assert(source@.take(at + 1).drop_last() == source@.take(at as int));
        assert(source@.take(at + 1).last() == id);
        if index.get(id).is_none() {
            spawn.push(id);
        }
        at += 1;
    }
    let claimed = claimed_locals(source, index);
    assert(source@.take(at as int) == source@);
    let mut despawn: Vec<TargetEntity> = Vec::new();
    let mut seen: usize = 0;
    while seen < target.len()
        invariant
            0 <= seen <= target.len(),
            is_prioritized(despawn@),
            despawn@ == despawn_order(unclaimed(target@.take(seen as int), source@, index@)),
            forall|local: u64|
                hash_map_entries(claimed).dom().contains(local) <==> is_claimed(
                    source@,
                    index@,
                    local,
                ),
        decreases target.len() - seen,
    {
        let entity = target[seen];
        let ghost kept = unclaimed(target@.take(seen as int), source@, index@);
        let ghost kept_next = unclaimed(target@.take(seen + 1), source@, index@);
        assert(target@.take(seen + 1).drop_last() == target@.take(seen as int));
        assert(target@.take(seen + 1).last() == entity);
        if hash_map_get(&claimed, entity.local.0).is_none() {
            assert(kept_next == kept.push(entity));
            assert(kept_next.drop_last() == kept);
            assert(kept_next.last() == entity);
            let mut place: usize = despawn.len();
            while place > 0 && despawn[place - 1].priority.0 > entity.priority.0
                invariant
                    0 <= place <= despawn@.len(),
                    forall|i: int|
                        place <= i < despawn@.len() ==> despawn@[i].priority.0 > entity.priority.0,
                decreases place,
            {
                place -= 1;
            }
            proof {
                assert forall|i: int| 0 <= i < place implies despawn@[i].priority.0
                    <= entity.priority.0 by {
                    assert(despawn@[i].priority.0 <= despawn@[place - 1].priority.0);
                }
                lemma_count_up_to_is_split(despawn@, entity.priority, place as int);
                lemma_insert_at_split_is_prioritized(despawn@, entity, place as int);
            }
            despawn.insert(place, entity);
        }
        seen += 1;
    }
    assert(target@.take(seen as int) == target@);
    ExtractedEntities { spawn, despawn }
}


/// Resets the simulation entities of a world: every entity that carries a
/// simulation entity is despawned and the index holds nothing any more.
/// Entities that carry none are not touched.
///
/// `entities` holds the entities of the world that carry a simulation
/// entity; the result lists what to despawn.
pub fn reset_simulation_entities(
    entities: &Vec<LocalEntity>,
    map: &mut SimulationEntityMap,
) -> (despawn: Vec<LocalEntity>)
    ensures
        despawn@ == entities@,
        final(map)@ == Map::<u64, u64>::empty(),
        final(map)@ == index_after_event(old(map)@, EntityEvent::Reset),
{
    let mut despawn: Vec<LocalEntity> = Vec::new();
    let mut at: usize = 0;
    while at < entities.len()
        invariant
            0 <= at <= entities.len(),
            despawn@ == entities@.take(at as int),
        decreases entities.len() - at,
    {
        despawn.push(entities[at]);
        assert(entities@.take(at + 1) == entities@.take(at as int).push(entities@[at as int]));
        at += 1;
    }
    assert(entities@.take(at as int) == entities@);
    map.clear();
    despawn
}

/// A world update that despawns a simulation entity.
///
/// Every simulation knows this update.
#[derive(Clone, Copy, Debug, PartialEq, Eq, Structural)]
pub struct DespawnSimulatonEntity {
    pub entity: SimulationEntity,
}

/// The simulation entities that `updates` name, in their order.
pub open spec fn despawned_ids(updates: Seq<ReadyUpdate<DespawnSimulatonEntity>>) -> Seq<
    SimulationEntity,
> {
    updates.map_values(|ready: ReadyUpdate<DespawnSimulatonEntity>| ready.update.entity)
}

/// What a batch of despawn updates asks of the world.
#[derive(Debug, PartialEq, Eq)]
pub struct DespawnedEntities {
    /// The local entities to despawn, in the order of the updates.
    pub despawn: Vec<LocalEntity>,
    /// The simulation entities that were named but do not exist locally.
    /// Their updates are skipped.
    pub unknown: Vec<SimulationEntity>,
}

/// Applies the despawn updates that are ready in this tick: the local
/// entity of each named simulation entity is despawned. An update whose
/// entity does not exist locally is skipped and reported.
pub fn despawn_simulation_entities(
    updates: &ReadyUpdates<DespawnSimulatonEntity>,
    map: &SimulationEntityMap,
) -> (despawned: DespawnedEntities)
    ensures
        despawned.despawn@ == known_locals(despawned_ids(updates.updates@), map@),
        despawned.unknown@ == unknown_ids(despawned_ids(updates.updates@), map@),
{
    let mut despawn: Vec<LocalEntity> = Vec::new();
    let mut unknown: Vec<SimulationEntity> = Vec::new();
    let ghost ids = despawned_ids(updates.updates@);
    let mut at: usize = 0;
    while at < updates.updates.len()
        invariant
            0 <= at <= updates.updates@.len(),
            ids == despawned_ids(updates.updates@),
            ids.len() == updates.updates@.len(),
            despawn@ == known_locals(ids.take(at as int), map@),
            unknown@ == unknown_ids(ids.take(at as int), map@),
        decreases updates.updates@.len() - at,
    {
        let entity = updates.updates[at].update.entity;
        assert(ids.take(at + 1).drop_last() == ids.take(at as int));
        assert(ids.take(at + 1).last() == entity);
        match map.get(entity) {
            Some(local_entity) => {
                despawn.push(local_entity);
            },
            None => {
                unknown.push(entity);
            },
        }
        at += 1;
    }
    assert(ids.take(at as int) == ids);
    DespawnedEntities { despawn, unknown }
}


/// What happens to the simulation entities of a world.
#[derive(Clone, Copy, Debug, PartialEq, Eq, Structural)]
pub enum EntityEvent {
    /// A local entity got the id: it was spawned with it, or was given it.
    Added { id: SimulationEntity, local: LocalEntity },
    /// A local entity lost the id: it was despawned, or the id was replaced.
    Removed { id: SimulationEntity, local: LocalEntity },
    /// The simulation was reset: every simulation entity was despawned.
    Reset,
}

/// The index after its hooks have seen `event`.
pub open spec fn index_after_event(index: Map<u64, u64>, event: EntityEvent) -> Map<u64, u64> {
    match event {
        EntityEvent::Added { id, local } => index.insert(id.0, local.0),
        EntityEvent::Removed { id, local } => index.remove(id.0),
        EntityEvent::Reset => Map::empty(),
    }
}

/// The live entities that carry an id, each with its id, after `event`.
pub open spec fn live_after_event(live: Map<u64, u64>, event: EntityEvent) -> Map<u64, u64> {
    match event {
        EntityEvent::Added { id, local } => live.insert(local.0, id.0),
        EntityEvent::Removed { id, local } => live.remove(local.0),
        EntityEvent::Reset => Map::empty(),
    }
}

/// Whether `event` can happen in a world whose index is `index` and whose
/// live entities are `live`: an id that is added is new and goes to an
/// entity that carries none, and an id that is removed is the one that the
/// entity carries.
pub open spec fn event_fits(index: Map<u64, u64>, live: Map<u64, u64>, event: EntityEvent) -> bool {
    match event {
        EntityEvent::Added { id, local } => !index.dom().contains(id.0) && !live.dom().contains(
            local.0,
        ),
        EntityEvent::Removed { id, local } => live.dom().contains(local.0) && live[local.0] == id.0,
        EntityEvent::Reset => true,
    }
}

/// The index after `events`.
pub open spec fn index_after(index: Map<u64, u64>, events: Seq<EntityEvent>) -> Map<u64, u64>
    decreases events.len(),
{
    if events.len() == 0 {
        index
    } else {
        index_after_event(index_after(index, events.drop_last()), events.last())
    }
}

/// The live entities after `events`.
pub open spec fn live_after(live: Map<u64, u64>, events: Seq<EntityEvent>) -> Map<u64, u64>
    decreases events.len(),
{
    if events.len() == 0 {
        live
    } else {
        live_after_event(live_after(live, events.drop_last()), events.last())
    }
}

/// Whether each of `events` fits the world as the events before it left it.
pub open spec fn events_fit(index: Map<u64, u64>, live: Map<u64, u64>, events: Seq<EntityEvent>) -> bool
    decreases events.len(),
{
    if events.len() == 0 {
        true
    } else {
        events_fit(index, live, events.drop_last()) && event_fits(
            index_after(index, events.drop_last()),
            live_after(live, events.drop_last()),
            events.last(),
        )
    }
}

/// Whether the index and the live entities say the same: the index maps an
/// id to an entity exactly when that entity is live and carries that id.
pub open spec fn mirrors(index: Map<u64, u64>, live: Map<u64, u64>) -> bool {
    &&& forall|id: u64|
        index.dom().contains(id) ==> live.dom().contains(#[trigger] index[id]) && live[index[id]]
            == id
    &&& forall|local: u64|
        live.dom().contains(local) ==> index.dom().contains(#[trigger] live[local])
            && index[live[local]] == local
}

/// An index that mirrors the live entities is one-to-one.
pub proof fn lemma_mirror_is_bijective(index: Map<u64, u64>, live: Map<u64, u64>)
    requires
        mirrors(index, live),
    ensures
        is_bijective(index),
{
    assert forall|a: u64, b: u64|
        index.dom().contains(a) && index.dom().contains(b) && #[trigger] index[a]
            == #[trigger] index[b] implies a == b by {
        assert(live[index[a]] == a);
        assert(live[index[b]] == b);
    }
}

/// One event that fits keeps the index a mirror of the live entities.
proof fn lemma_event_keeps_mirror(index: Map<u64, u64>, live: Map<u64, u64>, event: EntityEvent)
    requires
        mirrors(index, live),
        event_fits(index, live, event),
    ensures
        mirrors(index_after_event(index, event), live_after_event(live, event)),
{
    let index2 = index_after_event(index, event);
    let live2 = live_after_event(live, event);
    match event {
        EntityEvent::Added { id, local } => {
            assert forall|other: u64| index2.dom().contains(other) implies live2.dom().contains(
                #[trigger] index2[other],
            ) && live2[index2[other]] == other by {
                if other != id.0 {
                    assert(live.dom().contains(index[other]));
                }
            }
            assert forall|other: u64| live2.dom().contains(other) implies index2.dom().contains(
                #[trigger] live2[other],
            ) && index2[live2[other]] == other by {
                if other != local.0 {
                    assert(index.dom().contains(live[other]));
                }
            }
        },
        EntityEvent::Removed { id, local } => {
            assert(index.dom().contains(live[local.0]));
            assert forall|other: u64| index2.dom().contains(other) implies live2.dom().contains(
                #[trigger] index2[other],
            ) && live2[index2[other]] == other by {
                assert(live.dom().contains(index[other]));
                assert(live[index[other]] == other);
            }
            assert forall|other: u64| live2.dom().contains(other) implies index2.dom().contains(
                #[trigger] live2[other],
            ) && index2[live2[other]] == other by {
                assert(index.dom().contains(live[other]));
                assert(index[live[other]] == other);
            }
        },
        EntityEvent::Reset => {},
    }
}

/// The index is a bijection on the live entities that carry an id.
///
/// Let the index mirror the live entities, as it does in a fresh world.
/// After any sequence of spawns, despawns and resets in which every id
/// that is added is new, the index still mirrors the live entities: it
/// maps an id to an entity exactly when that entity is live and carries
/// that id, and no two ids name one entity.
pub proof fn lemma_index_is_bijection(
    index: Map<u64, u64>,
    live: Map<u64, u64>,
    events: Seq<EntityEvent>,
)
    requires
        mirrors(index, live),
        events_fit(index, live, events),
    ensures
        mirrors(index_after(index, events), live_after(live, events)),
        is_bijective(index_after(index, events)),
    decreases events.len(),
{
    if events.len() > 0 {
        lemma_index_is_bijection(index, live, events.drop_last());
        lemma_event_keeps_mirror(
            index_after(index, events.drop_last()),
            live_after(live, events.drop_last()),
            events.last(),
        );
    }
    lemma_mirror_is_bijective(index_after(index, events), live_after(live, events));
}

/// An id is unknown exactly when it is one of the ids and the index does
/// not hold it.
pub proof fn lemma_unknown_ids_are_the_missing(
    ids: Seq<SimulationEntity>,
    index: Map<u64, u64>,
    id: SimulationEntity,
)
    ensures
        unknown_ids(ids, index).contains(id) <==> ids.contains(id) && !index.dom().contains(id.0),
    decreases ids.len(),
{
    if ids.len() > 0 {
        let rest = ids.drop_last();
        lemma_unknown_ids_are_the_missing(rest, index, id);
        let found = unknown_ids(rest, index);
        if ids.contains(id) {
            let i = choose|i: int| 0 <= i < ids.len() && ids[i] == id;
            if i < rest.len() {
                assert(rest[i] == id);
            }
        }
        if rest.contains(id) {
            let i = choose|i: int| 0 <= i < rest.len() && rest[i] == id;
            assert(ids[i] == id);
        }
        assert(ids[ids.len() - 1] == ids.last());
        if !index.dom().contains(ids.last().0) {
            let grown = found.push(ids.last());
            assert(grown[found.len() as int] == ids.last());
            if found.contains(id) {
                let i = choose|i: int| 0 <= i < found.len() && found[i] == id;
                assert(grown[i] == id);
            }
            if grown.contains(id) {
                let i = choose|i: int| 0 <= i < grown.len() && grown[i] == id;
                if i < found.len() {
                    assert(found[i] == id);
                }
            }
        }
    }
}

/// Ids that are all different give unknown ids that are all different.
pub proof fn lemma_unknown_ids_are_distinct(ids: Seq<SimulationEntity>, index: Map<u64, u64>)
    requires
        ids.no_duplicates(),
    ensures
        unknown_ids(ids, index).no_duplicates(),
    decreases ids.len(),
{
    if ids.len() > 0 {
        let rest = ids.drop_last();
        assert(rest.no_duplicates()) by {
            assert forall|i: int, j: int|
                0 <= i < rest.len() && 0 <= j < rest.len() && i != j implies rest[i]
                != rest[j] by {
                assert(rest[i] == ids[i]);
                assert(rest[j] == ids[j]);
            }
        }
        lemma_unknown_ids_are_distinct(rest, index);
        if !index.dom().contains(ids.last().0) {
            let found = unknown_ids(rest, index);
            lemma_unknown_ids_are_the_missing(rest, index, ids.last());
            if rest.contains(ids.last()) {
                let i = choose|i: int| 0 <= i < rest.len() && rest[i] == ids.last();
                assert(ids[i] == ids[ids.len() - 1]);
            }
            let grown = found.push(ids.last());
            assert forall|i: int, j: int|
                0 <= i < grown.len() && 0 <= j < grown.len() && i != j implies grown[i]
                != grown[j] by {
                if i < found.len() && j < found.len() {
                    assert(grown[i] == found[i]);
                    assert(grown[j] == found[j]);
                } else if i < found.len() {
                    assert(found[i] == grown[i]);
                    assert(found.contains(grown[i]));
                } else if j < found.len() {
                    assert(found[j] == grown[j]);
                    assert(found.contains(grown[j]));
                }
            }
        }
    }
}

/// An entity is unclaimed exactly when it is one of the target and none of
/// the source ids names it.
pub proof fn lemma_unclaimed_are_the_rest(
    target: Seq<TargetEntity>,
    source: Seq<SimulationEntity>,
    index: Map<u64, u64>,
    entity: TargetEntity,
)
    ensures
        unclaimed(target, source, index).contains(entity) <==> target.contains(entity)
            && !is_claimed(source, index, entity.local.0),
    decreases target.len(),
{
    if target.len() > 0 {
        let rest = target.drop_last();
        lemma_unclaimed_are_the_rest(rest, source, index, entity);
        let found = unclaimed(rest, source, index);
        if target.contains(entity) {
            let i = choose|i: int| 0 <= i < target.len() && target[i] == entity;
            if i < rest.len() {
                assert(rest[i] == entity);
            }
        }
        if rest.contains(entity) {
            let i = choose|i: int| 0 <= i < rest.len() && rest[i] == entity;
            assert(target[i] == entity);
        }
        assert(target[target.len() - 1] == target.last());
        if !is_claimed(source, index, target.last().local.0) {
            let grown = found.push(target.last());
            assert(grown[found.len() as int] == target.last());
            if found.contains(entity) {
                let i = choose|i: int| 0 <= i < found.len() && found[i] == entity;
                assert(grown[i] == entity);
            }
            if grown.contains(entity) {
                let i = choose|i: int| 0 <= i < grown.len() && grown[i] == entity;
                if i < found.len() {
                    assert(found[i] == entity);
                }
            }
        }
    }
}

/// In a prioritized sequence everything before the count up to a priority
/// has at most that priority and nothing from it on has.
proof fn lemma_count_up_to_splits(entities: Seq<TargetEntity>, priority: ExtractDespawnPriority)
    requires
        is_prioritized(entities),
    ensures
        count_up_to(entities, priority) <= entities.len(),
        forall|i: int|
            0 <= i < count_up_to(entities, priority) ==> entities[i].priority.0 <= priority.0,
        forall|i: int|
            count_up_to(entities, priority) <= i < entities.len() ==> entities[i].priority.0
                > priority.0,
    decreases entities.len(),
{
    if entities.len() > 0 {
        let rest = entities.drop_last();
        lemma_count_up_to_splits(rest, priority);
        assert forall|i: int| 0 <= i < rest.len() implies rest[i] == entities[i] by {}
        if entities.last().priority.0 <= priority.0 {
            assert forall|i: int| 0 <= i < entities.len() implies entities[i].priority.0
                <= priority.0 by {
                assert(entities[i].priority.0 <= entities[entities.len() - 1].priority.0);
            }
            lemma_count_up_to_is_split(rest, priority, rest.len() as int);
        }
    }
}

/// The order of despawns holds exactly the entities it was made from, each
/// as often as it stood there, by ascending priority.
pub proof fn lemma_despawn_order_sorts(entities: Seq<TargetEntity>)
    ensures
        is_prioritized(despawn_order(entities)),
        despawn_order(entities).to_multiset() == entities.to_multiset(),
        despawn_order(entities).len() == entities.len(),
    decreases entities.len(),
{
    broadcast use vstd::seq_lib::group_to_multiset_ensures;

    if entities.len() > 0 {
        let rest = entities.drop_last();
        let before = despawn_order(rest);
        lemma_despawn_order_sorts(rest);
        lemma_count_up_to_splits(before, entities.last().priority);
        let at = count_up_to(before, entities.last().priority) as int;
        lemma_insert_at_split_is_prioritized(before, entities.last(), at);
        assert(rest.push(entities.last()) == entities);
    } else {
        assert(despawn_order(entities) == entities);
    }
}

/// Whether `despawn` holds the entity `local`.
pub open spec fn is_despawned(despawn: Seq<TargetEntity>, local: u64) -> bool {
    exists|i: int| 0 <= i < despawn.len() && (#[trigger] despawn[i]).local.0 == local
}

/// Whether every entity that `index` names is one of `target`.
pub open spec fn holds_indexed(target: Seq<TargetEntity>, index: Map<u64, u64>) -> bool {
    forall|id: u64| index.dom().contains(id) ==> is_despawned(target, #[trigger] index[id])
}

/// After extraction the target has the simulation entities of the source,
/// each once, and no others.
///
/// Let the index of the target be one-to-one and name only entities of the
/// target. Then an id is in the source exactly when the target keeps its
/// entity of that id or spawns one, and never both; and where the ids of
/// the source are all different, so are the ids that are spawned.
pub proof fn lemma_extraction_matches_source(
    source: Seq<SimulationEntity>,
    target: Seq<TargetEntity>,
    index: Map<u64, u64>,
    id: SimulationEntity,
)
    requires
        is_bijective(index),
        holds_indexed(target, index),
    ensures
        source.contains(id) <==> (index.dom().contains(id.0) && !is_despawned(
            despawn_order(unclaimed(target, source, index)),
            index[id.0],
        )) || unknown_ids(source, index).contains(id),
        unknown_ids(source, index).contains(id) ==> !index.dom().contains(id.0),
        source.no_duplicates() ==> unknown_ids(source, index).no_duplicates(),
{
    broadcast use vstd::seq_lib::group_to_multiset_ensures;

    let rest = unclaimed(target, source, index);
    let despawn = despawn_order(rest);
    lemma_despawn_order_sorts(rest);
    lemma_unknown_ids_are_the_missing(source, index, id);
    if source.no_duplicates() {
        lemma_unknown_ids_are_distinct(source, index);
    }
    if index.dom().contains(id.0) {
        let local = index[id.0];
        if source.contains(id) {
            let i = choose|i: int| 0 <= i < source.len() && source[i] == id;
            assert(index.dom().contains(source[i].0) && index[source[i].0] == local);
            assert(is_claimed(source, index, local));
            if is_despawned(despawn, local) {
                let j = choose|j: int|
                    0 <= j < despawn.len() && (#[trigger] despawn[j]).local.0 == local;
                assert(despawn.contains(despawn[j]));
                vstd::seq_lib::to_multiset_contains(despawn, despawn[j]);
                vstd::seq_lib::to_multiset_contains(rest, despawn[j]);
                assert(rest.contains(despawn[j]));
                lemma_unclaimed_are_the_rest(target, source, index, despawn[j]);
            }
        } else {
            assert(is_despawned(target, local));
            let j = choose|j: int| 0 <= j < target.len() && (#[trigger] target[j]).local.0 == local;
            lemma_unclaimed_are_the_rest(target, source, index, target[j]);
            assert(target.contains(target[j]));
            if is_claimed(source, index, local) {
                let i = choose|i: int|
                    0 <= i < source.len() && index.dom().contains(#[trigger] source[i].0)
                        && index[source[i].0] == local;
                assert(index[source[i].0] == index[id.0]);
                assert(source[i].0 == id.0);
                assert(source[i] == id);
            }
            assert(rest.contains(target[j]));
            vstd::seq_lib::to_multiset_contains(despawn, target[j]);
            vstd::seq_lib::to_multiset_contains(rest, target[j]);
            assert(despawn.contains(target[j]));
            let k = choose|k: int| 0 <= k < despawn.len() && despawn[k] == target[j];
            assert(despawn[k].local.0 == local);
        }
    }
}

} // verus!
