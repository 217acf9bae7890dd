//! Extraction of a component that simulation entities carry.

use vstd::prelude::*;
use crate::common::simulation::simulation_entity::{
    claimed_locals, hash_map_entries, hash_map_get, is_bijective, is_claimed, LocalEntity,
    SimulationEntity, SimulationEntityMap,
};
use crate::common::simulation::update_component::{components_after, ComponentWrite};
use crate::common::simulation::ExtractError;

verus! {

/// A component as it stands on a simulation entity of the source world.
#[derive(Debug, PartialEq, Eq)]
pub struct SourceComponent<C> {
    pub entity: SimulationEntity,
    pub component: C,
}

/// The first of `source` whose simulation entity `index` does not know.
pub open spec fn first_missing<C>(source: Seq<SourceComponent<C>>, index: Map<u64, u64>) -> Option<
    SimulationEntity,
>
    decreases source.len(),
{
    if source.len() == 0 {
        None
    } else if first_missing(source.drop_last(), index).is_some() {
        first_missing(source.drop_last(), index)
    } else if index.dom().contains(source.last().entity.0) {
        None
    } else {
        Some(source.last().entity)
    }
}

/// Each component of `source` on the local entity of its simulation entity.
pub open spec fn extracted_components<C>(
    source: Seq<SourceComponent<C>>,
    index: Map<u64, u64>,
) -> Seq<ComponentWrite<C>> {
    source.map_values(
        |from: SourceComponent<C>|
            ComponentWrite { entity: LocalEntity(index[from.entity.0]), component: from.component },
    )
}

/// Extracts one kind of component: every simulation entity of the source
/// world that has the component gets it on its local entity, updated where
/// it is there and inserted where it is not. A component that the source
/// no longer has stays on the local entity.
///
/// Fails on the first simulation entity of the source that has no local
/// entity.
pub fn extract_component<C>(source: Vec<SourceComponent<C>>, map: &SimulationEntityMap) -> (writes:
    Result<Vec<ComponentWrite<C>>, ExtractError>)
    ensures
        match first_missing(source@, map@) {
            Some(entity) => writes == Err::<Vec<ComponentWrite<C>>, ExtractError>(
                ExtractError::MissingLocalEntity { entity },
            ),
            None => writes.is_ok() && writes.unwrap()@ == extracted_components(source@, map@),
        },
{
    let mut writes: Vec<ComponentWrite<C>> = Vec::new();
    let ghost all = source@;
    for from in iter: source
        invariant
            iter.seq() == all,
            first_missing(all.take(iter.index() as int), map@).is_none(),
            writes@ == extracted_components(all.take(iter.index() as int), map@),
    {
        let ghost at = iter.index() as int;
        assert(all.take(at + 1).drop_last() == all.take(at));
        assert(all.take(at + 1).last() == from);
        match map.get(from.entity) {
            Some(local_entity) => {
                writes.push(ComponentWrite { entity: local_entity, component: from.component });
                assert(writes@ =~= extracted_components(all.take(at + 1), map@));
            },
            None => {
                proof {
                    lemma_first_missing_stays(all, map@, at + 1);
                }
                return Err(ExtractError::MissingLocalEntity { entity: from.entity });
            },
        }
    }
    assert(all.take(all.len() as int) == all);
    Ok(writes)
}

/// The local entities of `holders` to which none of the `source` entities
/// maps, in the order of `holders`.
pub open spec fn stale_holders(
    holders: Seq<LocalEntity>,
    source: Seq<SimulationEntity>,
    index: Map<u64, u64>,
) -> Seq<LocalEntity>
    decreases holders.len(),
{
    if holders.len() == 0 {
        Seq::empty()
    } else if is_claimed(source, index, holders.last().0) {
        stale_holders(holders.drop_last(), source, index)
    } else {
        stale_holders(holders.drop_last(), source, index).push(holders.last())
    }
}

/// Finds the components that the source world has lost, for a plugin that
/// asks for them to be removed: those of the local entities that hold the
/// component though no simulation entity that has it in the source world
/// maps to them.
///
/// `source` holds the simulation entities that have the component in the
/// source world and `holders` the local entities that have it now.
pub fn remove_missing_components(
    source: &Vec<SimulationEntity>,
    holders: &Vec<LocalEntity>,
    map: &SimulationEntityMap,
) -> (stale: Vec<LocalEntity>)
    ensures
        stale@ == stale_holders(holders@, source@, map@),
{
    let claimed = claimed_locals(source, map);
    let mut stale: Vec<LocalEntity> = Vec::new();
    let mut at: usize = 0;
    while at < holders.len()
        invariant
            0 <= at <= holders.len(),
            stale@ == stale_holders(holders@.take(at as int), source@, map@),
            forall|local: u64|
                hash_map_entries(claimed).dom().contains(local) <==> is_claimed(
                    source@,
                    map@,
                    local,
                ),
        decreases holders.len() - at,
    {
        let holder = holders[at];
        assert(holders@.take(at + 1).drop_last() == holders@.take(at as int));
        assert(holders@.take(at + 1).last() == holder);
        if hash_map_get(&claimed, holder.0).is_none() {
            stale.push(holder);
        }
        at += 1;
    }
    assert(holders@.take(at as int) == holders@);
    stale
}

/// What is missing in a prefix is the first that is missing in the whole.
proof fn lemma_first_missing_stays<C>(
    source: Seq<SourceComponent<C>>,
    index: Map<u64, u64>,
    upto: int,
)
    requires
        0 <= upto <= source.len(),
        first_missing(source.take(upto), index).is_some(),
    ensures
        first_missing(source, index) == first_missing(source.take(upto), index),
    decreases source.len() - upto,
{
    if upto < source.len() {
        assert(source.take(upto + 1).drop_last() == source.take(upto));
        lemma_first_missing_stays(source, index, upto + 1);
    } else {
        assert(source.take(upto) == source);
    }
}


/// Whether no two of `source` stand on the same simulation entity.
pub open spec fn has_distinct_entities<C>(source: Seq<SourceComponent<C>>) -> bool {
    forall|i: int, j: int|
        0 <= i < source.len() && 0 <= j < source.len() && i != j ==> source[i].entity
            != source[j].entity
}

/// Where nothing is missing, the index knows every entity of the source.
pub proof fn lemma_nothing_missing<C>(source: Seq<SourceComponent<C>>, index: Map<u64, u64>)
    requires
        first_missing(source, index).is_none(),
    ensures
        forall|i: int| 0 <= i < source.len() ==> index.dom().contains(#[trigger] source[i].entity.0),
    decreases source.len(),
{
    if source.len() > 0 {
        lemma_nothing_missing(source.drop_last(), index);
        assert forall|i: int| 0 <= i < source.len() implies index.dom().contains(
            #[trigger] source[i].entity.0,
        ) by {
            if i < source.len() - 1 {
                assert(source.drop_last()[i] == source[i]);
            }
        }
    }
}

/// Whether one of `source` is written to the local entity `local`.
pub open spec fn is_written<C>(source: Seq<SourceComponent<C>>, index: Map<u64, u64>, local: u64) -> bool {
    exists|i: int| 0 <= i < source.len() && index[#[trigger] source[i].entity.0] == local
}

/// After extraction every component of the source stands on the local
/// entity of its simulation entity, equal to what the source has.
///
/// Let the index be one-to-one and know every entity of the source, and
/// let the source name each simulation entity once. Then, whatever the
/// local world held before, once the writes are carried out the local
/// entity of each simulation entity of the source has the component of
/// the source.
pub proof fn lemma_extracted_components_equal_source<C>(
    source: Seq<SourceComponent<C>>,
    index: Map<u64, u64>,
    components: Map<u64, C>,
)
    requires
        first_missing(source, index).is_none(),
        is_bijective(index),
        has_distinct_entities(source),
    ensures
        forall|i: int|
            0 <= i < source.len() ==> components_after(
                components,
                extracted_components(source, index),
            ).dom().contains(index[#[trigger] source[i].entity.0]) && components_after(
                components,
                extracted_components(source, index),
            )[index[source[i].entity.0]] == source[i].component,
    decreases source.len(),
{
    if source.len() > 0 {
        let rest = source.drop_last();
        let writes = extracted_components(source, index);
        assert(writes.drop_last() =~= extracted_components(rest, index));
        assert(has_distinct_entities(rest)) by {
            assert forall|i: int, j: int|
                0 <= i < rest.len() && 0 <= j < rest.len() && i != j implies rest[i].entity
                != rest[j].entity by {
                assert(rest[i] == source[i]);
                assert(rest[j] == source[j]);
            }
        }
        lemma_extracted_components_equal_source(rest, index, components);
        lemma_nothing_missing(source, index);
        let before = components_after(components, extracted_components(rest, index));
        let after = components_after(components, writes);
        let last = source.len() - 1;
        assert(source.last() == source[last]);
        assert(after == before.insert(index[source[last].entity.0], source[last].component));
        assert forall|i: int| 0 <= i < source.len() implies after.dom().contains(
            index[#[trigger] source[i].entity.0],
        ) && after[index[source[i].entity.0]] == source[i].component by {
            if i < last {
                assert(rest[i] == source[i]);
                assert(source[i].entity != source[last].entity);
                assert(source[i].entity.0 != source[last].entity.0);
                assert(index[source[i].entity.0] != index[source[last].entity.0]);
            }
        }
    }
}

/// Extraction leaves alone what it does not write: a local entity that no
/// component of the source is written to has the component after the
/// extraction exactly when it had it before, and the same one. A component
/// that the source has lost is not taken off the local entity.
pub proof fn lemma_unwritten_components_stay<C>(
    source: Seq<SourceComponent<C>>,
    index: Map<u64, u64>,
    components: Map<u64, C>,
    local: u64,
)
    requires
        !is_written(source, index, local),
    ensures
        components_after(components, extracted_components(source, index)).dom().contains(local)
            <==> components.dom().contains(local),
        components.dom().contains(local) ==> components_after(
            components,
            extracted_components(source, index),
        )[local] == components[local],
    decreases source.len(),
{
    if source.len() > 0 {
        let rest = source.drop_last();
        let writes = extracted_components(source, index);
        assert(writes.drop_last() =~= extracted_components(rest, index));
        assert(!is_written(rest, index, local)) by {
            if is_written(rest, index, local) {
                let i = choose|i: int|
                    0 <= i < rest.len() && index[#[trigger] rest[i].entity.0] == local;
                assert(rest[i] == source[i]);
                assert(index[source[i].entity.0] == local);
            }
        }
        lemma_unwritten_components_stay(rest, index, components, local);
        let last = source.len() - 1;
        assert(source.last() == source[last]);
        assert(index[source[last].entity.0] != local);
    }
}

} // verus!
