//! Pairs of entities of which at least one is new.
//!
//! When a client joins it has to hear of every entity that is there, and
//! when an entity appears every client has to hear of it. Both are pairs
//! of a client and an entity of which one or both were added in this tick.

use vstd::prelude::*;
use crate::common::simulation::simulation_entity::{
    hash_map_entries, hash_map_get, hash_map_insert, hash_map_new, LocalEntity,
};

verus! {

/// The entities that carry `A` and those that carry `B`: for each kind
/// those that got it in this tick, and all that have it.
#[derive(Debug)]
pub struct NewPairs {
    pub added_a: Vec<LocalEntity>,
    pub existing_a: Vec<LocalEntity>,
    pub added_b: Vec<LocalEntity>,
    pub existing_b: Vec<LocalEntity>,
}

/// `a` with each of `bs` that is not in `skip`.
pub open spec fn pairs_of_a(a: LocalEntity, bs: Seq<LocalEntity>, skip: Seq<LocalEntity>) -> Seq<
    (LocalEntity, LocalEntity),
>
    decreases bs.len(),
{
    if bs.len() == 0 {
        Seq::empty()
    } else if skip.contains(bs.last()) {
        pairs_of_a(a, bs.drop_last(), skip)
    } else {
        pairs_of_a(a, bs.drop_last(), skip).push((a, bs.last()))
    }
}

/// Each of `added_a` with each of `existing_b` that was not added in this
/// tick.
pub open spec fn pairs_of_new_a(
    added_a: Seq<LocalEntity>,
    existing_b: Seq<LocalEntity>,
    added_b: Seq<LocalEntity>,
) -> Seq<(LocalEntity, LocalEntity)>
    decreases added_a.len(),
{
    if added_a.len() == 0 {
        Seq::empty()
    } else {
        pairs_of_new_a(added_a.drop_last(), existing_b, added_b) + pairs_of_a(
            added_a.last(),
            existing_b,
            added_b,
        )
    }
}

/// Each of `added_b` with each of `existing_a`.
pub open spec fn pairs_of_new_b(added_b: Seq<LocalEntity>, existing_a: Seq<LocalEntity>) -> Seq<
    (LocalEntity, LocalEntity),
>
    decreases added_b.len(),
{
    if added_b.len() == 0 {
        Seq::empty()
    } else {
        pairs_of_new_b(added_b.drop_last(), existing_a) + existing_a.map_values(
            |a: LocalEntity| (a, added_b.last()),
        )
    }
}

impl NewPairs {
    /// The pairs that are new: first every added `A` with every `B` that
    /// was there before, then every added `B` with every `A`.
    pub open spec fn pairs(&self) -> Seq<(LocalEntity, LocalEntity)> {
        pairs_of_new_a(self.added_a@, self.existing_b@, self.added_b@) + pairs_of_new_b(
            self.added_b@,
            self.existing_a@,
        )
    }

    /// Returns pairs of entities with `A` and `B`, where either or both
    /// had that component added in this tick. A pair of which both were
    /// added is not counted twice. An entity that has both components
    /// pairs with itself.
    pub fn iter(&self) -> (pairs: Vec<(LocalEntity, LocalEntity)>)
        ensures
            pairs@ == self.pairs(),
    {
        let mut added = hash_map_new();
        let mut seen: usize = 0;
        while seen < self.added_b.len()
            invariant
                0 <= seen <= self.added_b@.len(),
                forall|bits: u64|
                    hash_map_entries(added).dom().contains(bits) <==> self.added_b@.take(
                        seen as int,
                    ).contains(LocalEntity(bits)),
            decreases self.added_b@.len() - seen,
        {
            let entity = self.added_b[seen];
            let ghost before = self.added_b@.take(seen as int);
            let ghost after = self.added_b@.take(seen + 1);
            let _ = hash_map_insert(&mut added, entity.0, 0);
            proof {
                assert(after == before.push(entity));
                assert forall|bits: u64|
                    hash_map_entries(added).dom().contains(bits) <==> after.contains(
                        LocalEntity(bits),
                    ) by {
                    if before.contains(LocalEntity(bits)) {
                        let i = choose|i: int| 0 <= i < before.len() && before[i] == LocalEntity(bits);
                        assert(after[i] == LocalEntity(bits));
                    }
                    if bits == entity.0 {
                        assert(after[seen as int] == LocalEntity(bits));
                    }
                    if after.contains(LocalEntity(bits)) {
                        let i = choose|i: int| 0 <= i < after.len() && after[i] == LocalEntity(bits);
                        if i < seen {
                            assert(before[i] == LocalEntity(bits));
                        }
                    }
                }
            }
            seen += 1;
        }
        assert(self.added_b@.take(seen as int) == self.added_b@);
        let mut pairs: Vec<(LocalEntity, LocalEntity)> = Vec::new();
        let mut at: usize = 0;
        while at < self.added_a.len()
            invariant
                0 <= at <= self.added_a@.len(),
                forall|bits: u64|
                    hash_map_entries(added).dom().contains(bits) <==> self.added_b@.contains(
                        LocalEntity(bits),
                    ),
                pairs@ == pairs_of_new_a(
                    self.added_a@.take(at as int),
                    self.existing_b@,
                    self.added_b@,
                ),
            decreases self.added_a@.len() - at,
        {
            let added_a_entity = self.added_a[at];
            assert(self.added_a@.take(at + 1).drop_last() == self.added_a@.take(at as int));
            assert(self.added_a@.take(at + 1).last() == added_a_entity);
            let ghost done = pairs@;
            let mut with: usize = 0;
            while with < self.existing_b.len()
                invariant
                    0 <= with <= self.existing_b@.len(),
                    forall|bits: u64|
                        hash_map_entries(added).dom().contains(bits) <==> self.added_b@.contains(
                            LocalEntity(bits),
                        ),
                    pairs@ == done + pairs_of_a(
                        added_a_entity,
                        self.existing_b@.take(with as int),
                        self.added_b@,
                    ),
                decreases self.existing_b@.len() - with,
            {
                let existing_b_entity = self.existing_b[with];
                assert(self.existing_b@.take(with + 1).drop_last() == self.existing_b@.take(
                    with as int,
                ));
                assert(self.existing_b@.take(with + 1).last() == existing_b_entity);
                // A `B` that was added in this tick comes in the second part.
                assert(existing_b_entity == LocalEntity(existing_b_entity.0));
                if hash_map_get(&added, existing_b_entity.0).is_none() {
                    pairs.push((added_a_entity, existing_b_entity));
                }
                with += 1;
            }
            assert(self.existing_b@.take(with as int) == self.existing_b@);
            at += 1;
        }
        assert(self.added_a@.take(at as int) == self.added_a@);
        let ghost first = pairs@;
        let mut at: usize = 0;
        while at < self.added_b.len()
            invariant
                0 <= at <= self.added_b@.len(),
                pairs@ == first + pairs_of_new_b(self.added_b@.take(at as int), self.existing_a@),
            decreases self.added_b@.len() - at,
        {
            let added_b_entity = self.added_b[at];
            assert(self.added_b@.take(at + 1).drop_last() == self.added_b@.take(at as int));
            assert(self.added_b@.take(at + 1).last() == added_b_entity);
            let ghost done = pairs@;
            let mut with: usize = 0;
            while with < self.existing_a.len()
                invariant
                    0 <= with <= self.existing_a@.len(),
                    pairs@ == done + self.existing_a@.take(with as int).map_values(
                        |a: LocalEntity| (a, added_b_entity),
                    ),
                decreases self.existing_a@.len() - with,
            {
                pairs.push((self.existing_a[with], added_b_entity));
                assert(self.existing_a@.take(with + 1) == self.existing_a@.take(with as int).push(
                    self.existing_a@[with as int],
                ));
                with += 1;
            }
            assert(self.existing_a@.take(with as int) == self.existing_a@);
            at += 1;
        }
        assert(self.added_b@.take(at as int) == self.added_b@);
        pairs
    }
}

} // verus!
