//! The world update that sets a component of a simulation entity.

use vstd::prelude::*;
use crate::common::simulation::simulation_entity::{
    LocalEntity, SimulationEntity, SimulationEntityMap,
};
use crate::common::simulation::update_queue::{ReadyUpdate, ReadyUpdates};

verus! {

/// A world update that sets a component of a simulation entity, inserting
/// it where the entity does not have it yet.
#[derive(Debug, PartialEq, Eq)]
pub struct UpdateComponent<C> {
    pub entity: SimulationEntity,
    pub component: C,
}

impl<C: Clone> Clone for UpdateComponent<C> {
    fn clone(&self) -> (copy: UpdateComponent<C>)
        ensures
            copy.entity == self.entity,
            cloned(self.component, copy.component),
    {
        UpdateComponent { entity: self.entity, component: self.component.clone() }
    }
}

/// How many component updates of one kind a world has applied.
#[derive(Clone, Copy, Debug, PartialEq, Eq, Structural)]
pub struct UpdateComponentCount {
    pub count: u32,
}

impl Default for UpdateComponentCount {
    fn default() -> (count: UpdateComponentCount)
        ensures
            count.count == 0,
    {
        UpdateComponentCount { count: 0 }
    }
}

/// A component to set on an entity of the local world.
#[derive(Debug, PartialEq, Eq)]
pub struct ComponentWrite<C> {
    pub entity: LocalEntity,
    pub component: C,
}

/// What a batch of component updates asks of the world.
#[derive(Debug, PartialEq, Eq)]
pub struct ComponentUpdates<C> {
    /// The components to set, in the order of the updates.
    pub writes: Vec<ComponentWrite<C>>,
    /// The simulation entities that were named but do not exist locally.
    /// Their updates are skipped.
    pub unknown: Vec<SimulationEntity>,
}

/// The components that `updates` set on entities that `index` knows.
pub open spec fn component_writes<C>(
    updates: Seq<ReadyUpdate<UpdateComponent<C>>>,
    index: Map<u64, u64>,
) -> Seq<ComponentWrite<C>>
    decreases updates.len(),
{
    if updates.len() == 0 {
        Seq::empty()
    } else if index.dom().contains(updates.last().update.entity.0) {
        component_writes(updates.drop_last(), index).push(
            ComponentWrite {
                entity: LocalEntity(index[updates.last().update.entity.0]),
                component: updates.last().update.component,
            },
        )
    } else {
        component_writes(updates.drop_last(), index)
    }
}

/// The entities that `updates` name and `index` does not know.
pub open spec fn unknown_entities<C>(
    updates: Seq<ReadyUpdate<UpdateComponent<C>>>,
    index: Map<u64, u64>,
) -> Seq<SimulationEntity>
    decreases updates.len(),
{
    if updates.len() == 0 {
        Seq::empty()
    } else if index.dom().contains(updates.last().update.entity.0) {
        unknown_entities(updates.drop_last(), index)
    } else {
        unknown_entities(updates.drop_last(), index).push(updates.last().update.entity)
    }
}

/// `count` raised by `applied`, as far as it can count.
pub open spec fn raised(count: u32, applied: nat) -> u32 {
    if count + applied <= u32::MAX {
        (count + applied) as u32
    } else {
        u32::MAX
    }
}

/// Applies the component updates that are ready in this tick.
///
/// An update whose simulation entity exists locally sets the component on
/// that entity and is counted. One whose entity does not exist locally is
/// skipped and reported.
pub fn update_component<C>(
    updates: ReadyUpdates<UpdateComponent<C>>,
    map: &SimulationEntityMap,
    count: &mut UpdateComponentCount,
) -> (applied: ComponentUpdates<C>)
    ensures
        applied.writes@ == component_writes(updates.updates@, map@),
        applied.unknown@ == unknown_entities(updates.updates@, map@),
        final(count).count == raised(old(count).count, applied.writes@.len()),
{
    let mut writes: Vec<ComponentWrite<C>> = Vec::new();
    let mut unknown: Vec<SimulationEntity> = Vec::new();
    let ghost all = updates.updates@;
    for ready in iter: updates.updates
        invariant
            iter.seq() == all,
            writes@ == component_writes(all.take(iter.index() as int), map@),
            unknown@ == unknown_entities(all.take(iter.index() as int), map@),
            count.count == raised(old(count).count, writes@.len()),
    {
        let ghost at = iter.index() as int;
        assert(all.take(at + 1).drop_last() == all.take(at));
        assert(all.take(at + 1).last() == ready);
        let UpdateComponent { entity, component } = ready.update;
        match map.get(entity) {
            Some(local_entity) => {
                writes.push(ComponentWrite { entity: local_entity, component });
                if count.count < u32::MAX {
                    count.count = count.count + 1;
                }
            },
            None => {
                unknown.push(entity);
            },
        }
    }
    assert(all.take(all.len() as int) == all);
    ComponentUpdates { writes, unknown }
}

/// The components of the local world, by local entity, after `writes` were
/// carried out in order.
pub open spec fn components_after<C>(components: Map<u64, C>, writes: Seq<ComponentWrite<C>>) -> Map<
    u64,
    C,
>
    decreases writes.len(),
{
    if writes.len() == 0 {
        components
    } else {
        components_after(components, writes.drop_last()).insert(
            writes.last().entity.0,
            writes.last().component,
        )
    }
}

/// The last update of a component is the one that stays.
///
/// Once the writes are carried out, an entity has the component of the
/// write that names it and is followed by no other write that names it,
/// whatever it had before and whether or not the update came late.
pub proof fn lemma_last_write_stays<C>(
    components: Map<u64, C>,
    writes: Seq<ComponentWrite<C>>,
    last: int,
)
    requires
        0 <= last < writes.len(),
        forall|later: int|
            last < later < writes.len() ==> (#[trigger] writes[later]).entity
                != writes[last].entity,
    ensures
        components_after(components, writes).dom().contains(writes[last].entity.0),
        components_after(components, writes)[writes[last].entity.0] == writes[last].component,
    decreases writes.len(),
{
    if last < writes.len() - 1 {
        let rest = writes.drop_last();
        assert(rest[last] == writes[last]);
        assert forall|later: int| last < later < rest.len() implies (#[trigger] rest[later]).entity
            != rest[last].entity by {
            assert(rest[later] == writes[later]);
        }
        lemma_last_write_stays(components, rest, last);
        assert(writes.last() == writes[writes.len() - 1]);
        assert(writes[writes.len() - 1].entity != writes[last].entity);
        assert(writes.last().entity.0 != writes[last].entity.0);
    }
}

/// An entity that no write names keeps what it had.
pub proof fn lemma_unwritten_entity_keeps_component<C>(
    components: Map<u64, C>,
    writes: Seq<ComponentWrite<C>>,
    entity: u64,
)
    requires
        forall|i: int| 0 <= i < writes.len() ==> (#[trigger] writes[i]).entity.0 != entity,
    ensures
        components_after(components, writes).dom().contains(entity) <==> components.dom().contains(
            entity,
        ),
        components.dom().contains(entity) ==> components_after(components, writes)[entity]
            == components[entity],
    decreases writes.len(),
{
    if writes.len() > 0 {
        let rest = writes.drop_last();
        assert forall|i: int| 0 <= i < rest.len() implies (#[trigger] rest[i]).entity.0
            != entity by {
            assert(rest[i] == writes[i]);
        }
        lemma_unwritten_entity_keeps_component(components, rest, entity);
        assert(writes.last() == writes[writes.len() - 1]);
    }
}

} // verus!
