//! Extraction of a relation between simulation entities.
//!
//! A relation points from one entity to another. The two worlds name the
//! same simulation entity by different local entities, so the target of a
//! relation is carried over by its simulation entity and looked up again
//! in the index of the local world.

use vstd::prelude::*;
use bevy::platform::collections::HashMap;
use crate::common::simulation::simulation_entity::{
    hash_map_entries, hash_map_get, hash_map_insert, hash_map_new, is_bijective, LocalEntity,
    SimulationEntity, SimulationEntityMap,
};
use crate::common::simulation::ExtractError;

verus! {

/// What an entity of the source world is related to.
#[derive(Clone, Copy, Debug, PartialEq, Eq, Structural)]
pub enum SourceRelation {
    /// The entity has no relation of this kind.
    Unrelated,
    /// The entity is related to the given simulation entity.
    Related { target: SimulationEntity },
    /// The entity is related to one that carries no simulation entity.
    RelatedOutside,
}

/// A simulation entity of the source world with its relation.
#[derive(Clone, Copy, Debug, PartialEq, Eq, Structural)]
pub struct SourceRelationOf {
    pub entity: SimulationEntity,
    pub relation: SourceRelation,
}

/// What extraction does to the relation of one local entity.
#[derive(Clone, Copy, Debug, PartialEq, Eq, Structural)]
pub enum RelationCommand {
    /// Take the relation off the entity.
    Remove { entity: LocalEntity },
    /// Relate the entity to `target`.
    Insert { entity: LocalEntity, target: LocalEntity },
}

/// The relations of one kind that the simulation entities of the local
/// world have: local entity to the local entity it is related to.
pub struct LocalRelations {
    relations: HashMap<u64, u64>,
}

impl View for LocalRelations {
    type V = Map<u64, u64>;

    closed spec fn view(&self) -> Map<u64, u64> {
        hash_map_entries(self.relations)
    }
}

impl LocalRelations {
    /// No relations.
    pub fn new() -> (relations: LocalRelations)
        ensures
            relations@ == Map::<u64, u64>::empty(),
    {
        LocalRelations { relations: hash_map_new() }
    }

    /// Records that `entity` is related to `target`.
    pub fn insert(&mut self, entity: LocalEntity, target: LocalEntity)
        ensures
            final(self)@ == old(self)@.insert(entity.0, target.0),
    {
        let _ = hash_map_insert(&mut self.relations, entity.0, target.0);
    }

    /// What `entity` is related to, if it is related.
    pub fn get(&self, entity: LocalEntity) -> (target: Option<LocalEntity>)
        ensures
            target == if self@.dom().contains(entity.0) {
                Some(LocalEntity(self@[entity.0]))
            } else {
                None
            },
    {
        match hash_map_get(&self.relations, entity.0) {
            Some(bits) => Some(LocalEntity(bits)),
            None => None,
        }
    }
}

/// What extraction does for one entity of the source world.
///
/// The entity must exist locally. Where the source has no relation, a
/// local one is removed. Where it has one, its target must carry a
/// simulation entity that exists locally; the local entity is then related
/// to that target unless it is already.
pub open spec fn relation_command(
    from: SourceRelationOf,
    relations: Map<u64, u64>,
    index: Map<u64, u64>,
) -> Result<Option<RelationCommand>, ExtractError> {
    if !index.dom().contains(from.entity.0) {
        Err(ExtractError::MissingLocalEntity { entity: from.entity })
    } else {
        let entity = index[from.entity.0];
        match from.relation {
            SourceRelation::Unrelated => {
                if relations.dom().contains(entity) {
                    Ok(Some(RelationCommand::Remove { entity: LocalEntity(entity) }))
                } else {
                    Ok(None)
                }
            },
            SourceRelation::RelatedOutside => Err(
                ExtractError::TargetWithoutSimulationEntity { entity: from.entity },
            ),
            SourceRelation::Related { target } => {
                if !index.dom().contains(target.0) {
                    Err(ExtractError::MissingLocalTarget { entity: from.entity, target })
                } else if relations.dom().contains(entity) && relations[entity]
                    == index[target.0] {
                    Ok(None)
                } else {
                    Ok(
                        Some(
                            RelationCommand::Insert {
                                entity: LocalEntity(entity),
                                target: LocalEntity(index[target.0]),
                            },
                        ),
                    )
                }
            },
        }
    }
}

/// What extraction does for the entities of the source world, taken in
/// order up to the first that fails.
pub open spec fn relation_commands(
    source: Seq<SourceRelationOf>,
    relations: Map<u64, u64>,
    index: Map<u64, u64>,
) -> Result<Seq<RelationCommand>, ExtractError>
    decreases source.len(),
{
    if source.len() == 0 {
        Ok(Seq::empty())
    } else {
        match relation_commands(source.drop_last(), relations, index) {
            Err(error) => Err(error),
            Ok(commands) => match relation_command(source.last(), relations, index) {
                Err(error) => Err(error),
                Ok(None) => Ok(commands),
                Ok(Some(command)) => Ok(commands.push(command)),
            },
        }
    }
}

/// A failure in a prefix is the failure of the whole.
proof fn lemma_relation_failure_stays(
    source: Seq<SourceRelationOf>,
    relations: Map<u64, u64>,
    index: Map<u64, u64>,
    upto: int,
)
    requires
        0 <= upto <= source.len(),
        relation_commands(source.take(upto), relations, index).is_err(),
    ensures
        relation_commands(source, relations, index) == relation_commands(
            source.take(upto),
            relations,
            index,
        ),
    decreases source.len() - upto,
{
    if upto < source.len() {
        assert(source.take(upto + 1).drop_last() == source.take(upto));
        lemma_relation_failure_stays(source, relations, index, upto + 1);
    } else {
        assert(source.take(upto) == source);
    }
}

/// Extracts one kind of relation between simulation entities.
///
/// `source` holds every simulation entity of the source world with its
/// relation, `local_relations` the relations that the local world has now.
/// The result lists what to change in the local world, in the order of
/// `source`. A relation that the source no longer has is always removed.
pub fn extract_relation(
    source: &Vec<SourceRelationOf>,
    local_relations: &LocalRelations,
    map: &SimulationEntityMap,
) -> (commands: Result<Vec<RelationCommand>, ExtractError>)
    ensures
        match relation_commands(source@, local_relations@, map@) {
            Ok(expected) => commands.is_ok() && commands.unwrap()@ == expected,
            Err(error) => commands == Err::<Vec<RelationCommand>, ExtractError>(error),
        },
{
    let mut commands: Vec<RelationCommand> = Vec::new();
    let mut at: usize = 0;
    while at < source.len()
        invariant
            0 <= at <= source.len(),
            relation_commands(source@.take(at as int), local_relations@, map@) == Ok::<
                Seq<RelationCommand>,
                ExtractError,
            >(commands@),
        decreases source.len() - at,
    {
        let from = source[at];
        assert(source@.take(at + 1).drop_last() == source@.take(at as int));
        assert(source@.take(at + 1).last() == from);
        let local_relation_entity = match map.get(from.entity) {
            Some(entity) => entity,
            None => {
                proof {
                    lemma_relation_failure_stays(source@, local_relations@, map@, at + 1);
                }
                return Err(ExtractError::MissingLocalEntity { entity: from.entity });
            },
        };
        match from.relation {
            SourceRelation::Unrelated => {
                if local_relations.get(local_relation_entity).is_some() {
                    commands.push(RelationCommand::Remove { entity: local_relation_entity });
                }
            },
            SourceRelation::RelatedOutside => {
                proof {
                    lemma_relation_failure_stays(source@, local_relations@, map@, at + 1);
                }
                return Err(ExtractError::TargetWithoutSimulationEntity { entity: from.entity });
            },
            SourceRelation::Related { target } => {
                let local_target_entity = match map.get(target) {
                    Some(entity) => entity,
                    None => {
                        proof {
                            lemma_relation_failure_stays(source@, local_relations@, map@, at + 1);
                        }
                        return Err(
                            ExtractError::MissingLocalTarget { entity: from.entity, target },
                        );
                    },
                };
                // Don't insert if the relation has the right target already.
                let current = local_relations.get(local_relation_entity);
                let unchanged = match current {
                    Some(current_target) => current_target.0 == local_target_entity.0,
                    None => false,
                };
                if !unchanged {
                    commands.push(
                        RelationCommand::Insert {
                            entity: local_relation_entity,
                            target: local_target_entity,
                        },
                    );
                }
            },
        }
        at += 1;
    }
    assert(source@.take(at as int) == source@);
    Ok(commands)
}


/// The relations of the local world after `command` was carried out.
pub open spec fn relations_after_command(
    relations: Map<u64, u64>,
    command: RelationCommand,
) -> Map<u64, u64> {
    match command {
        RelationCommand::Remove { entity } => relations.remove(entity.0),
        RelationCommand::Insert { entity, target } => relations.insert(entity.0, target.0),
    }
}

/// The relations of the local world after `commands` were carried out in
/// order.
pub open spec fn relations_after(relations: Map<u64, u64>, commands: Seq<RelationCommand>) -> Map<
    u64,
    u64,
>
    decreases commands.len(),
{
    if commands.len() == 0 {
        relations
    } else {
        relations_after_command(relations_after(relations, commands.drop_last()), commands.last())
    }
}

/// Whether no two of `source` are the same simulation entity.
pub open spec fn has_distinct_relations(source: Seq<SourceRelationOf>) -> bool {
    forall|i: int, j: int|
        0 <= i < source.len() && 0 <= j < source.len() && i != j ==> source[i].entity
            != source[j].entity
}

/// Whether `local` is the local entity of one of `source`.
pub open spec fn is_related_entity(
    source: Seq<SourceRelationOf>,
    index: Map<u64, u64>,
    local: u64,
) -> bool {
    exists|i: int| 0 <= i < source.len() && index[#[trigger] source[i].entity.0] == local
}

/// Whether the local relation of `entity` is what the source says: none
/// where the source has none, else the local entity of the target.
pub open spec fn relation_matches(
    relations: Map<u64, u64>,
    from: SourceRelationOf,
    index: Map<u64, u64>,
) -> bool {
    match from.relation {
        SourceRelation::Unrelated => !relations.dom().contains(index[from.entity.0]),
        SourceRelation::Related { target } => relations.dom().contains(index[from.entity.0])
            && relations[index[from.entity.0]] == index[target.0],
        SourceRelation::RelatedOutside => false,
    }
}

/// Where extraction succeeds it succeeds for every part of the source, and
/// the index knows every entity of the source.
proof fn lemma_relation_success(
    source: Seq<SourceRelationOf>,
    relations: Map<u64, u64>,
    index: Map<u64, u64>,
)
    requires
        relation_commands(source, relations, index).is_ok(),
    ensures
        forall|i: int| 0 <= i < source.len() ==> index.dom().contains(#[trigger] source[i].entity.0),
    decreases source.len(),
{
    if source.len() > 0 {
        lemma_relation_success(source.drop_last(), relations, index);
        assert forall|i: int| 0 <= i < source.len() implies index.dom().contains(
            #[trigger] source[i].entity.0,
        ) by {
            if i < source.len() - 1 {
                assert(source.drop_last()[i] == source[i]);
            }
        }
    }
}

/// Extraction changes the relation of no entity but those of the source.
proof fn lemma_other_relations_stay(
    source: Seq<SourceRelationOf>,
    relations: Map<u64, u64>,
    index: Map<u64, u64>,
    local: u64,
)
    requires
        relation_commands(source, relations, index).is_ok(),
        !is_related_entity(source, index, local),
    ensures
        relations_after(
            relations,
            relation_commands(source, relations, index).unwrap(),
        ).dom().contains(local) <==> relations.dom().contains(local),
        relations.dom().contains(local) ==> relations_after(
            relations,
            relation_commands(source, relations, index).unwrap(),
        )[local] == relations[local],
    decreases source.len(),
{
    if source.len() > 0 {
        let rest = source.drop_last();
        assert(!is_related_entity(rest, index, local)) by {
            if is_related_entity(rest, index, local) {
                let i = choose|i: int|
                    0 <= i < rest.len() && index[#[trigger] rest[i].entity.0] == local;
                assert(rest[i] == source[i]);
                assert(index[source[i].entity.0] == local);
            }
        }
        lemma_other_relations_stay(rest, relations, index, local);
        let last = source.len() - 1;
        assert(source.last() == source[last]);
        assert(index[source[last].entity.0] != local);
        let before = relation_commands(rest, relations, index).unwrap();
        let commands = relation_commands(source, relations, index).unwrap();
        match relation_command(source.last(), relations, index) {
            Ok(Some(command)) => {
                assert(commands.drop_last() =~= before);
                assert(commands.last() == command);
            },
            _ => {},
        }
    }
}

/// After extraction every relation of the source stands on the local
/// entity of its simulation entity, pointing at the local entity of its
/// target; and a local entity whose simulation entity has no relation in
/// the source has none.
///
/// This holds where extraction succeeds, the index is one-to-one and the
/// source names each simulation entity once.
pub proof fn lemma_extracted_relations_equal_source(
    source: Seq<SourceRelationOf>,
    relations: Map<u64, u64>,
    index: Map<u64, u64>,
)
    requires
        relation_commands(source, relations, index).is_ok(),
        is_bijective(index),
        has_distinct_relations(source),
    ensures
        forall|i: int|
            0 <= i < source.len() ==> relation_matches(
                relations_after(relations, relation_commands(source, relations, index).unwrap()),
                #[trigger] source[i],
                index,
            ),
    decreases source.len(),
{
    if source.len() > 0 {
        let rest = source.drop_last();
        let last = source.len() - 1;
        assert(source.last() == source[last]);
        assert(has_distinct_relations(rest)) by {
            assert forall|i: int, j: int|
                0 <= i < rest.len() && 0 <= j < rest.len() && i != j implies rest[i].entity
                != rest[j].entity by {
                assert(rest[i] == source[i]);
                assert(rest[j] == source[j]);
            }
        }
        lemma_extracted_relations_equal_source(rest, relations, index);
        lemma_relation_success(source, relations, index);
        let before = relation_commands(rest, relations, index).unwrap();
        let commands = relation_commands(source, relations, index).unwrap();
        let settled = relations_after(relations, before);
        let after = relations_after(relations, commands);
        let entity = index[source[last].entity.0];
        assert(!is_related_entity(rest, index, entity)) by {
            if is_related_entity(rest, index, entity) {
                let i = choose|i: int|
                    0 <= i < rest.len() && index[#[trigger] rest[i].entity.0] == entity;
                assert(rest[i] == source[i]);
                assert(source[i].entity != source[last].entity);
                assert(source[i].entity.0 != source[last].entity.0);
            }
        }
        lemma_other_relations_stay(rest, relations, index, entity);
        match relation_command(source.last(), relations, index) {
            Ok(Some(command)) => {
                assert(commands.drop_last() =~= before);
                assert(commands.last() == command);
                assert(after == relations_after_command(settled, command));
            },
            _ => {
                assert(after == settled);
            },
        }
        assert forall|i: int| 0 <= i < source.len() implies relation_matches(
            after,
            #[trigger] source[i],
            index,
        ) by {
            if i < last {
                assert(rest[i] == source[i]);
                assert(relation_matches(settled, rest[i], index));
                assert(source[i].entity != source[last].entity);
                assert(source[i].entity.0 != source[last].entity.0);
                assert(index[source[i].entity.0] != entity);
            }
        }
    }
}

} // verus!
