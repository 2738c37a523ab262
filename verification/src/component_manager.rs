//! Dense per-kind component storage with packed iteration lists and a
//! per-entity bitmask membership test.
//!
//! For every kind the store keeps (a) a dense column with one slot per id
//! ever reserved, holding the kind's value or the empty sentinel, and (b) a
//! packed list of the ids currently holding that kind. The store invariant
//! ties the two together: a dense slot is non-empty exactly when the id is in
//! the kind's packed list.

use vstd::prelude::*;

verus! {

use crate::c_data::Vector2;
use crate::ecs::ErrEcs;
use crate::eid_manager::Entity;
use crate::seqs::lemma_remove_first_absent;
use crate::seqs::lemma_remove_first_at;
use crate::seqs::lemma_remove_first_present;
use crate::seqs::remove_first;

/// The number of component kinds the engine knows.
pub const KIND_COUNT: usize = 1;

/// A component slot's payload: a stored value of some kind, or the sentinel
/// marking absence.
#[derive(Clone, Copy, Debug, PartialEq, Eq, Structural)]
pub enum Component {
    Pos2(Vector2),
    Empty,
}

/// Names a component kind when searching, adding or removing.
#[derive(Clone, Copy, Debug, PartialEq, Eq, Hash, Structural)]
pub enum Find {
    Pos2,
}

/// Reserved memory for component data: the dense columns and the packed
/// per-kind lists of holders.
pub struct ComponentData {
    components: Vec<Vec<Component>>,
    packed_components: Vec<Vec<usize>>,
}

/// The dense columns, one sequence of slots per kind.
pub closed spec fn dense(cd: ComponentData) -> Seq<Seq<Component>> {
    cd.components@.map_values(|column: Vec<Component>| column@)
}

/// The packed lists, one sequence of holder ids per kind.
pub closed spec fn packed(cd: ComponentData) -> Seq<Seq<usize>> {
    cd.packed_components@.map_values(|column: Vec<usize>| column@)
}

/// How many id slots each dense column has reserved.
pub open spec fn slot_count(cd: ComponentData) -> nat {
    if dense(cd).len() > 0 {
        dense(cd)[0].len()
    } else {
        0
    }
}

/// The dense-column position of a kind.
pub open spec fn kind_index(which: Find) -> int {
    match which {
        Find::Pos2 => 0,
    }
}

/// The bit by which a kind is represented in an entity's bitmask.
pub open spec fn kind_bit(which: Find) -> u32 {
    match which {
        Find::Pos2 => 1,
    }
}

/// The bitmask test: whether `mask` has the bit of kind `which` set.
pub open spec fn mask_has(mask: u32, which: Find) -> bool {
    mask & kind_bit(which) == kind_bit(which)
}

/// The dense slot of kind `which` for id `id`.
pub open spec fn slot_at(cd: ComponentData, which: Find, id: usize) -> Component {
    dense(cd)[kind_index(which)][id as int]
}

/// Whether the store holds kind `which` for id `id` (dense slot non-empty).
pub open spec fn store_has(cd: ComponentData, which: Find, id: usize) -> bool {
    slot_at(cd, which, id) != Component::Empty
}

/// Whether id `id` appears in the packed list of kind `which`.
pub open spec fn packed_has(cd: ComponentData, which: Find, id: usize) -> bool {
    packed(cd)[kind_index(which)].contains(id)
}

/// Store well-formedness: one dense column and one packed list per kind, all
/// columns of equal length, packed lists duplicate-free with in-bounds ids,
/// and a dense slot non-empty exactly when its id is packed.
pub open spec fn store_wf(cd: ComponentData) -> bool {
    &&& dense(cd).len() == KIND_COUNT
    &&& packed(cd).len() == KIND_COUNT
    &&& forall|k: int| 0 <= k < KIND_COUNT ==> #[trigger] dense(cd)[k].len() == slot_count(cd)
    &&& forall|k: int| 0 <= k < KIND_COUNT ==> #[trigger] packed(cd)[k].no_duplicates()
    &&& forall|k: int, i: int|
        0 <= k < KIND_COUNT && 0 <= i < packed(cd)[k].len() ==> #[trigger] packed(cd)[k][i]
            < slot_count(cd)
    &&& forall|k: int, id: usize|
        0 <= k < KIND_COUNT && id < slot_count(cd) ==> ((#[trigger] dense(cd)[k][id as int])
            != Component::Empty <==> packed(cd)[k].contains(id))
}

/// A dense column is an in-memory vector, so the number of reserved slots
/// always fits in a machine word.
pub proof fn lemma_slot_count_bound(cd: ComponentData)
    ensures
        slot_count(cd) <= usize::MAX,
{
    if dense(cd).len() > 0 {
        let column = cd.components@[0];
        assert(column.len() == column@.len());
        assert(dense(cd)[0] == column@);
    }
}

/// An entity's bitmask is in step with the store: for every kind, the bit is
/// set exactly when the store holds that kind for the entity's id.
pub open spec fn entity_masks_match(e: Entity, cd: ComponentData) -> bool {
    forall|which: Find| #[trigger] mask_has(e.component_bitmask, which) == store_has(
        cd,
        which,
        e.id,
    )
}

/// Searches `column` for `id` and removes its first occurrence, by value.
pub(crate) fn remove_id_value(column: &mut Vec<usize>, id: usize)
    ensures
        final(column)@ == remove_first(old(column)@, id),
{
    let n = column.len();
    let mut i: usize = 0;
    while i < n
        invariant
            i <= n,
            *column == *old(column),
            n == column@.len(),
            forall|j: int| 0 <= j < i ==> column@[j] != id,
        decreases n - i,
    {
        if column[i] == id {
            proof {
                lemma_remove_first_at(column@, id, i as int);
            }
            column.remove(i);
            return ;
        }
        i = i + 1;
    }
    proof {
        assert(!column@.contains(id)) by {
            if column@.contains(id) {
                let j = choose|j: int| 0 <= j < column@.len() && column@[j] == id;
                assert(column@[j] != id);
            }
        }
        lemma_remove_first_absent(column@, id);
    }
}

impl ComponentData {
    /// Empty storage: one empty dense column and one empty packed list per
    /// kind, no id slots reserved yet.
    pub fn new() -> (cd: ComponentData)
        ensures
            store_wf(cd),
            slot_count(cd) == 0,
            forall|k: int| 0 <= k < KIND_COUNT ==> #[trigger] packed(cd)[k] == Seq::<usize>::empty(),
            forall|k: int|
                0 <= k < KIND_COUNT ==> #[trigger] dense(cd)[k] == Seq::<Component>::empty(),
    {
        let mut components: Vec<Vec<Component>> = Vec::new();
        let mut packed_components: Vec<Vec<usize>> = Vec::new();
        let mut i: usize = 0;
        while i < KIND_COUNT
            invariant
                i <= KIND_COUNT,
                components@.len() == i,
                packed_components@.len() == i,
                forall|k: int| 0 <= k < i ==> #[trigger] components@[k]@.len() == 0,
                forall|k: int| 0 <= k < i ==> #[trigger] packed_components@[k]@.len() == 0,
            decreases KIND_COUNT - i,
        {
            components.push(Vec::new());
            packed_components.push(Vec::new());
            i = i + 1;
        }
        let cd = ComponentData { components, packed_components };
        proof {
            assert forall|k: int| 0 <= k < KIND_COUNT implies #[trigger] packed(cd)[k] == Seq::<
                usize,
            >::empty() by {
                assert(packed(cd)[k] =~= Seq::<usize>::empty());
            }
            assert forall|k: int| 0 <= k < KIND_COUNT implies #[trigger] dense(cd)[k] == Seq::<
                Component,
            >::empty() by {
                assert(dense(cd)[k] =~= Seq::<Component>::empty());
            }
        }
        cd
    }
}

/// Getters and storage operations for components, keyed by kind.
pub struct ComponentManager {}

impl ComponentManager {
    /// The dense-column index of a kind.
    pub fn get_component_id(which: &Find) -> (id: usize)
        ensures
            id == kind_index(*which),
    {
        match which {
            Find::Pos2 => 0,
        }
    }

    /// The bit by which a kind is represented in the bitmask.
    pub fn get_component_bit(which: &Find) -> (bit: u32)
        ensures
            bit == kind_bit(*which),
    {
        match which {
            Find::Pos2 => 1,
        }
    }

    /// Bitmask membership test: true when the entity's mask has the kind's
    /// bit set.
    pub fn entity_has_component(entity: &Entity, which: &Find) -> (has: bool)
        ensures
            has == mask_has(entity.component_bitmask, *which),
    {
        let bit = ComponentManager::get_component_bit(which);
        (entity.component_bitmask & bit) == bit
    }

    /// Reserves memory for a newly allocated id: appends one empty slot to
    /// every kind's dense column. Dense columns only grow.
    pub fn reserve(component_data: &mut ComponentData)
        requires
            store_wf(*old(component_data)),
        ensures
            store_wf(*final(component_data)),
            slot_count(*final(component_data)) == slot_count(*old(component_data)) + 1,
            forall|k: int|
                0 <= k < KIND_COUNT ==> #[trigger] dense(*final(component_data))[k] == dense(
                    *old(component_data),
                )[k].push(Component::Empty),
            packed(*final(component_data)) == packed(*old(component_data)),
    {
        let n = component_data.components.len();
        let mut i: usize = 0;
        while i < n
            invariant
                i <= n,
                n == component_data.components@.len(),
                component_data.packed_components == old(component_data).packed_components,
                n == old(component_data).components@.len(),
                forall|k: int|
                    0 <= k < i ==> #[trigger] component_data.components@[k]@ == old(
                        component_data,
                    ).components@[k]@.push(Component::Empty),
                forall|k: int|
                    i <= k < n ==> #[trigger] component_data.components@[k] == old(
                        component_data,
                    ).components@[k],
            decreases n - i,
        {
            component_data.components[i].push(Component::Empty);
            i = i + 1;
        }
        proof {
            let oldd = *old(component_data);
            let newd = *final(component_data);
            assert(packed(newd) =~= packed(oldd));
            assert forall|k: int| 0 <= k < KIND_COUNT implies #[trigger] dense(newd)[k] == dense(
                oldd,
            )[k].push(Component::Empty) by {
                assert(dense(newd)[k] == newd.components@[k]@);
                assert(dense(oldd)[k] == oldd.components@[k]@);
            }
            assert(slot_count(newd) == slot_count(oldd) + 1);
            assert forall|k: int, id: usize|
                0 <= k < KIND_COUNT && id < slot_count(newd) implies ((#[trigger] dense(
                newd,
            )[k][id as int]) != Component::Empty <==> packed(newd)[k].contains(id)) by {
                if id < slot_count(oldd) {
                    assert(dense(newd)[k][id as int] == dense(oldd)[k][id as int]);
                } else {
                    assert(dense(newd)[k][id as int] == Component::Empty);
                    if packed(newd)[k].contains(id) {
                        let j = choose|j: int|
                            0 <= j < packed(oldd)[k].len() && packed(oldd)[k][j] == id;
                        assert(packed(oldd)[k][j] < slot_count(oldd));
                    }
                }
            }
        }
    }

    /// Adds an entry in the packed list for the given entity. Fails when the
    /// kind has no packed list.
    pub fn pack(component_data: &mut ComponentData, entity: &Entity, which: &Find) -> (r: Result<
        (),
        ErrEcs,
    >)
        ensures
            kind_index(*which) < packed(*old(component_data)).len() ==> {
                &&& r is Ok
                &&& packed(*final(component_data)) == packed(*old(component_data)).update(
                    kind_index(*which),
                    packed(*old(component_data))[kind_index(*which)].push(entity.id),
                )
                &&& dense(*final(component_data)) == dense(*old(component_data))
            },
            kind_index(*which) >= packed(*old(component_data)).len() ==> {
                &&& r == Err::<(), ErrEcs>(ErrEcs::ComponentCategoryNotFound)
                &&& *final(component_data) == *old(component_data)
            },
    {
        let cid = ComponentManager::get_component_id(which);
        if cid < component_data.packed_components.len() {
            component_data.packed_components[cid].push(entity.id);
            proof {
                let oldd = *old(component_data);
                let newd = *final(component_data);
                assert(dense(newd) =~= dense(oldd));
                assert(packed(newd) =~= packed(oldd).update(
                    kind_index(*which),
                    packed(oldd)[kind_index(*which)].push(entity.id),
                ));
            }
            Ok(())
        } else {
            Err(ErrEcs::ComponentCategoryNotFound)
        }
    }

    /// Removes the entity's entry from the packed list for the given kind,
    /// searching by value. Fails when the kind has no packed list.
    pub fn unpack(component_data: &mut ComponentData, entity: &Entity, which: &Find) -> (r: Result<
        (),
        ErrEcs,
    >)
        ensures
            kind_index(*which) < packed(*old(component_data)).len() ==> {
                &&& r is Ok
                &&& packed(*final(component_data)) == packed(*old(component_data)).update(
                    kind_index(*which),
                    remove_first(packed(*old(component_data))[kind_index(*which)], entity.id),
                )
                &&& dense(*final(component_data)) == dense(*old(component_data))
            },
            kind_index(*which) >= packed(*old(component_data)).len() ==> {
                &&& r == Err::<(), ErrEcs>(ErrEcs::ComponentCategoryNotFound)
                &&& *final(component_data) == *old(component_data)
            },
    {
        let cid = ComponentManager::get_component_id(which);
        if cid < component_data.packed_components.len() {
            remove_id_value(&mut component_data.packed_components[cid], entity.id);
            proof {
                let oldd = *old(component_data);
                let newd = *final(component_data);
                assert(dense(newd) =~= dense(oldd));
                assert(packed(newd) =~= packed(oldd).update(
                    kind_index(*which),
                    remove_first(packed(oldd)[kind_index(*which)], entity.id),
                ));
            }
            Ok(())
        } else {
            Err(ErrEcs::ComponentCategoryNotFound)
        }
    }

    /// Unconditionally overwrites the entity's dense slot for the given kind.
    /// Does not touch the bitmask or the packed list: callers using it
    /// directly must keep those consistent themselves.
    pub fn set_component(
        component_data: &mut ComponentData,
        entity: &Entity,
        which: &Find,
        component: Component,
    ) -> (r: Result<(), ErrEcs>)
        ensures
            kind_index(*which) >= dense(*old(component_data)).len() ==> {
                &&& r == Err::<(), ErrEcs>(ErrEcs::UnallocatedComponent)
                &&& *final(component_data) == *old(component_data)
            },
            kind_index(*which) < dense(*old(component_data)).len() && entity.id >= dense(
                *old(component_data),
            )[kind_index(*which)].len() ==> {
                &&& r == Err::<(), ErrEcs>(ErrEcs::EidOutOfBounds)
                &&& *final(component_data) == *old(component_data)
            },
            kind_index(*which) < dense(*old(component_data)).len() && entity.id < dense(
                *old(component_data),
            )[kind_index(*which)].len() ==> {
                &&& r is Ok
                &&& dense(*final(component_data)) == dense(*old(component_data)).update(
                    kind_index(*which),
                    dense(*old(component_data))[kind_index(*which)].update(
                        entity.id as int,
                        component,
                    ),
                )
                &&& packed(*final(component_data)) == packed(*old(component_data))
            },
    {
        let cid = ComponentManager::get_component_id(which);
        if cid < component_data.components.len() {
            if entity.id < component_data.components[cid].len() {
                component_data.components[cid][entity.id] = component;
                proof {
                    let oldd = *old(component_data);
                    let newd = *final(component_data);
                    assert(packed(newd) =~= packed(oldd));
                    assert(dense(newd) =~= dense(oldd).update(
                        kind_index(*which),
                        dense(oldd)[kind_index(*which)].update(entity.id as int, component),
                    ));
                }
                Ok(())
            } else {
                Err(ErrEcs::EidOutOfBounds)
            }
        } else {
            Err(ErrEcs::UnallocatedComponent)
        }
    }

    /// Returns a copy of the entity's dense slot for the given kind: the
    /// stored value, or the empty sentinel when the entity lacks the kind.
    pub fn read_component(component_data: &ComponentData, entity: &Entity, which: Find) -> (r:
        Result<Component, ErrEcs>)
        ensures
            kind_index(which) >= dense(*component_data).len() ==> r == Err::<Component, ErrEcs>(
                ErrEcs::UnallocatedComponent,
            ),
            kind_index(which) < dense(*component_data).len() && entity.id >= dense(
                *component_data,
            )[kind_index(which)].len() ==> r == Err::<Component, ErrEcs>(ErrEcs::EidOutOfBounds),
            kind_index(which) < dense(*component_data).len() && entity.id < dense(
                *component_data,
            )[kind_index(which)].len() ==> r == Ok::<Component, ErrEcs>(
                slot_at(*component_data, which, entity.id),
            ),
    {
        let cid = ComponentManager::get_component_id(&which);
        if cid < component_data.components.len() {
            if entity.id < component_data.components[cid].len() {
                Ok(component_data.components[cid][entity.id])
            } else {
                Err(ErrEcs::EidOutOfBounds)
            }
        } else {
            Err(ErrEcs::UnallocatedComponent)
        }
    }

    /// Frees the component slots at the entity's id: resets every kind's
    /// dense slot to the empty sentinel and removes the id from every packed
    /// list that holds it.
    pub fn free(component_data: &mut ComponentData, entity: &Entity)
        ensures
            dense(*final(component_data)).len() == dense(*old(component_data)).len(),
            packed(*final(component_data)).len() == packed(*old(component_data)).len(),
            forall|k: int|
                0 <= k < dense(*old(component_data)).len() ==> #[trigger] dense(
                    *final(component_data),
                )[k] == if entity.id < dense(*old(component_data))[k].len() {
                    dense(*old(component_data))[k].update(entity.id as int, Component::Empty)
                } else {
                    dense(*old(component_data))[k]
                },
            forall|k: int|
                0 <= k < packed(*old(component_data)).len() ==> #[trigger] packed(
                    *final(component_data),
                )[k] == remove_first(packed(*old(component_data))[k], entity.id),
            store_wf(*old(component_data)) ==> store_wf(*final(component_data)),
    {
        let dense_kinds = component_data.components.len();
        let mut k: usize = 0;
        while k < dense_kinds
            invariant
                k <= dense_kinds,
                dense_kinds == component_data.components@.len(),
                dense_kinds == old(component_data).components@.len(),
                component_data.packed_components == old(component_data).packed_components,
                forall|j: int|
                    0 <= j < k ==> #[trigger] component_data.components@[j]@ == (if entity.id < old(
                        component_data,
                    ).components@[j]@.len() {
                        old(component_data).components@[j]@.update(
                            entity.id as int,
                            Component::Empty,
                        )
                    } else {
                        old(component_data).components@[j]@
                    }),
                forall|j: int|
                    k <= j < dense_kinds ==> #[trigger] component_data.components@[j] == old(
                        component_data,
                    ).components@[j],
            decreases dense_kinds - k,
        {
            if entity.id < component_data.components[k].len() {
                component_data.components[k][entity.id] = Component::Empty;
            }
            k = k + 1;
        }
        let ghost mid = *component_data;
        let packed_kinds = component_data.packed_components.len();
        let mut p: usize = 0;
        while p < packed_kinds
            invariant
                p <= packed_kinds,
                packed_kinds == component_data.packed_components@.len(),
                packed_kinds == mid.packed_components@.len(),
                component_data.components == mid.components,
                forall|j: int|
                    0 <= j < p ==> #[trigger] component_data.packed_components@[j]@ == remove_first(
                        mid.packed_components@[j]@,
                        entity.id,
                    ),
                forall|j: int|
                    p <= j < packed_kinds ==> #[trigger] component_data.packed_components@[j]
                        == mid.packed_components@[j],
            decreases packed_kinds - p,
        {
            remove_id_value(&mut component_data.packed_components[p], entity.id);
            p = p + 1;
        }
        proof {
            let oldd = *old(component_data);
            let newd = *final(component_data);
            assert forall|k2: int| 0 <= k2 < dense(oldd).len() implies #[trigger] dense(
                newd,
            )[k2] == (if entity.id < dense(oldd)[k2].len() {
                dense(oldd)[k2].update(entity.id as int, Component::Empty)
            } else {
                dense(oldd)[k2]
            }) by {
                assert(dense(newd)[k2] == newd.components@[k2]@);
                assert(dense(oldd)[k2] == oldd.components@[k2]@);
            }
            assert forall|k2: int| 0 <= k2 < packed(oldd).len() implies #[trigger] packed(
                newd,
            )[k2] == remove_first(packed(oldd)[k2], entity.id) by {
                assert(packed(newd)[k2] == newd.packed_components@[k2]@);
                assert(packed(oldd)[k2] == oldd.packed_components@[k2]@);
            }
            if store_wf(oldd) {
                assert(slot_count(newd) == slot_count(oldd)) by {
                    assert(dense(newd)[0].len() == dense(oldd)[0].len());
                }
                assert forall|k2: int| 0 <= k2 < KIND_COUNT implies #[trigger] packed(
                    newd,
                )[k2].no_duplicates() by {
                    if packed(oldd)[k2].contains(entity.id) {
                        lemma_remove_first_present(packed(oldd)[k2], entity.id);
                    } else {
                        lemma_remove_first_absent(packed(oldd)[k2], entity.id);
                    }
                }
                assert forall|k2: int, i: int|
                    0 <= k2 < KIND_COUNT && 0 <= i < packed(newd)[k2].len() implies #[trigger] packed(
                    newd,
                )[k2][i] < slot_count(newd) by {
                    if packed(oldd)[k2].contains(entity.id) {
                        lemma_remove_first_present(packed(oldd)[k2], entity.id);
                        assert(packed(newd)[k2].contains(packed(newd)[k2][i]));
                        let x = packed(newd)[k2][i];
                        assert(packed(oldd)[k2].contains(x));
                        let j = choose|j: int|
                            0 <= j < packed(oldd)[k2].len() && packed(oldd)[k2][j] == x;
                        assert(packed(oldd)[k2][j] < slot_count(oldd));
                    } else {
                        lemma_remove_first_absent(packed(oldd)[k2], entity.id);
                    }
                }
                assert forall|k2: int, id: usize|
                    0 <= k2 < KIND_COUNT && id < slot_count(newd) implies ((#[trigger] dense(
                    newd,
                )[k2][id as int]) != Component::Empty <==> packed(newd)[k2].contains(id)) by {
                    if packed(oldd)[k2].contains(entity.id) {
                        lemma_remove_first_present(packed(oldd)[k2], entity.id);
                    } else {
                        lemma_remove_first_absent(packed(oldd)[k2], entity.id);
                    }
                    if id == entity.id {
                        assert(dense(newd)[k2][id as int] == Component::Empty);
                        assert(!packed(newd)[k2].contains(id));
                    } else {
                        assert(dense(newd)[k2][id as int] == dense(oldd)[k2][id as int]);
                        assert(packed(newd)[k2].contains(id) == packed(oldd)[k2].contains(id));
                    }
                }
            }
        }
    }

    /// Adds the given component to the entity as one atomic step: appends the
    /// id to the kind's packed list, writes the value into the dense slot and
    /// sets the bitmask bit — or fails without any change when the entity
    /// already has the kind.
    pub fn add_component(
        component_data: &mut ComponentData,
        entity: &mut Entity,
        which: Find,
        component: Component,
    ) -> (r: Result<(), ErrEcs>)
        requires
            store_wf(*old(component_data)),
            entity_masks_match(*old(entity), *old(component_data)),
            old(entity).id < slot_count(*old(component_data)),
            component != Component::Empty,
        ensures
            store_wf(*final(component_data)),
            entity_masks_match(*final(entity), *final(component_data)),
            r is Ok <==> !mask_has(old(entity).component_bitmask, which),
            mask_has(old(entity).component_bitmask, which) ==> {
                &&& r == Err::<(), ErrEcs>(ErrEcs::ComponentAlreadyExists)
                &&& *final(component_data) == *old(component_data)
                &&& *final(entity) == *old(entity)
            },
            !mask_has(old(entity).component_bitmask, which) ==> {
                &&& final(entity).id == old(entity).id
                &&& final(entity).owner == old(entity).owner
                &&& final(entity).component_bitmask == old(entity).component_bitmask | kind_bit(
                    which,
                )
                &&& dense(*final(component_data)) == dense(*old(component_data)).update(
                    kind_index(which),
                    dense(*old(component_data))[kind_index(which)].update(
                        old(entity).id as int,
                        component,
                    ),
                )
                &&& packed(*final(component_data)) == packed(*old(component_data)).update(
                    kind_index(which),
                    packed(*old(component_data))[kind_index(which)].push(old(entity).id),
                )
                &&& slot_count(*final(component_data)) == slot_count(*old(component_data))
            },
    {
        if ComponentManager::entity_has_component(entity, &which) {
            return Err(ErrEcs::ComponentAlreadyExists);
        }
        match ComponentManager::pack(component_data, entity, &which) {
            Ok(()) => (),
            Err(e) => {
                proof {
                    assert(false);
                }
                return Err(e);
            },
        }
        match ComponentManager::set_component(component_data, entity, &which, component) {
            Ok(()) => (),
            Err(e) => {
                proof {
                    assert(false);
                }
                return Err(e);
            },
        }
        let bit = ComponentManager::get_component_bit(&which);
        entity.component_bitmask = entity.component_bitmask | bit;
        proof {
            let oldd = *old(component_data);
            let newd = *final(component_data);
            let id = old(entity).id;
            let kx = kind_index(which);
            let oldmask = old(entity).component_bitmask;
            assert(slot_count(newd) == slot_count(oldd)) by {
                assert(dense(newd)[0].len() == dense(oldd)[0].len());
            }
            assert(!packed(oldd)[kx].contains(id)) by {
                assert(mask_has(oldmask, which) == store_has(oldd, which, id));
            }
            crate::seqs::lemma_push_no_dup(packed(oldd)[kx], id);
            assert(store_wf(newd)) by {
                assert forall|k2: int, i: int|
                    0 <= k2 < KIND_COUNT && 0 <= i < packed(newd)[k2].len() implies #[trigger] packed(
                    newd,
                )[k2][i] < slot_count(newd) by {
                    if k2 == kx && i == packed(oldd)[k2].len() {
                        assert(packed(newd)[k2][i] == id);
                    } else {
                        assert(packed(newd)[k2][i] == packed(oldd)[k2][i]);
                    }
                }
                assert forall|k2: int, id2: usize|
                    0 <= k2 < KIND_COUNT && id2 < slot_count(newd) implies ((#[trigger] dense(
                    newd,
                )[k2][id2 as int]) != Component::Empty <==> packed(newd)[k2].contains(id2)) by {
                    crate::seqs::lemma_push_contains(packed(oldd)[kx], id, id2);
                    if k2 == kx {
                        if id2 == id {
                            assert(dense(newd)[k2][id2 as int] == component);
                        } else {
                            assert(dense(newd)[k2][id2 as int] == dense(oldd)[k2][id2 as int]);
                            assert(packed(newd)[k2].contains(id2) == packed(oldd)[k2].contains(
                                id2,
                            ));
                        }
                    } else {
                        assert(dense(newd)[k2][id2 as int] == dense(oldd)[k2][id2 as int]);
                        assert(packed(newd)[k2] == packed(oldd)[k2]);
                    }
                }
            }
            assert(entity_masks_match(*final(entity), newd)) by {
                assert forall|w: Find| #[trigger] mask_has(final(entity).component_bitmask, w)
                    == store_has(newd, w, id) by {
                    assert(w == Find::Pos2 && which == Find::Pos2);
                    assert((oldmask | 1u32) & 1u32 == 1u32) by (bit_vector);
                    assert(dense(newd)[kx][id as int] == component);
                }
            }
        }
        Ok(())
    }

    /// Removes the given component from the entity as one atomic step:
    /// removes the id from the kind's packed list, resets the dense slot to
    /// the empty sentinel and clears the bitmask bit — or fails without any
    /// change when the entity lacks the kind.
    pub fn remove_component(
        component_data: &mut ComponentData,
        entity: &mut Entity,
        which: Find,
    ) -> (r: Result<(), ErrEcs>)
        requires
            store_wf(*old(component_data)),
            entity_masks_match(*old(entity), *old(component_data)),
            old(entity).id < slot_count(*old(component_data)),
        ensures
            store_wf(*final(component_data)),
            entity_masks_match(*final(entity), *final(component_data)),
            r is Ok <==> mask_has(old(entity).component_bitmask, which),
            !mask_has(old(entity).component_bitmask, which) ==> {
                &&& r == Err::<(), ErrEcs>(ErrEcs::EntityComponentNotFound)
                &&& *final(component_data) == *old(component_data)
                &&& *final(entity) == *old(entity)
            },
            mask_has(old(entity).component_bitmask, which) ==> {
                &&& final(entity).id == old(entity).id
                &&& final(entity).owner == old(entity).owner
                &&& final(entity).component_bitmask == old(entity).component_bitmask - kind_bit(
                    which,
                )
                &&& dense(*final(component_data)) == dense(*old(component_data)).update(
                    kind_index(which),
                    dense(*old(component_data))[kind_index(which)].update(
                        old(entity).id as int,
                        Component::Empty,
                    ),
                )
                &&& packed(*final(component_data)) == packed(*old(component_data)).update(
                    kind_index(which),
                    remove_first(packed(*old(component_data))[kind_index(which)], old(entity).id),
                )
                &&& slot_count(*final(component_data)) == slot_count(*old(component_data))
            },
    {
        if !ComponentManager::entity_has_component(entity, &which) {
            return Err(ErrEcs::EntityComponentNotFound);
        }
        match ComponentManager::unpack(component_data, entity, &which) {
            Ok(()) => (),
            Err(e) => {
                proof {
                    assert(false);
                }
                return Err(e);
            },
        }
        match ComponentManager::set_component(component_data, entity, &which, Component::Empty) {
            Ok(()) => (),
            Err(e) => {
                proof {
                    assert(false);
                }
                return Err(e);
            },
        }
        let bit = ComponentManager::get_component_bit(&which);
        proof {
            let oldmask = old(entity).component_bitmask;
            assert(oldmask & 1u32 == 1u32 ==> oldmask >= 1u32) by (bit_vector);
        }
        entity.component_bitmask = entity.component_bitmask - bit;
        proof {
            let oldd = *old(component_data);
            let newd = *final(component_data);
            let id = old(entity).id;
            let kx = kind_index(which);
            let oldmask = old(entity).component_bitmask;
            assert(slot_count(newd) == slot_count(oldd)) by {
                assert(dense(newd)[0].len() == dense(oldd)[0].len());
            }
            assert(packed(oldd)[kx].contains(id)) by {
                assert(mask_has(oldmask, which) == store_has(oldd, which, id));
            }
            lemma_remove_first_present(packed(oldd)[kx], id);
            assert(store_wf(newd)) by {
                assert forall|k2: int, i: int|
                    0 <= k2 < KIND_COUNT && 0 <= i < packed(newd)[k2].len() implies #[trigger] packed(
                    newd,
                )[k2][i] < slot_count(newd) by {
                    if k2 == kx {
                        let x = packed(newd)[k2][i];
                        assert(packed(newd)[k2].contains(x));
                        assert(packed(oldd)[k2].contains(x));
                        let j = choose|j: int|
                            0 <= j < packed(oldd)[k2].len() && packed(oldd)[k2][j] == x;
                        assert(packed(oldd)[k2][j] < slot_count(oldd));
                    } else {
                        assert(packed(newd)[k2][i] == packed(oldd)[k2][i]);
                    }
                }
                assert forall|k2: int, id2: usize|
                    0 <= k2 < KIND_COUNT && id2 < slot_count(newd) implies ((#[trigger] dense(
                    newd,
                )[k2][id2 as int]) != Component::Empty <==> packed(newd)[k2].contains(id2)) by {
                    if k2 == kx {
                        if id2 == id {
                            assert(dense(newd)[k2][id2 as int] == Component::Empty);
                            assert(!packed(newd)[k2].contains(id2));
                        } else {
                            assert(dense(newd)[k2][id2 as int] == dense(oldd)[k2][id2 as int]);
                            assert(packed(newd)[k2].contains(id2) == packed(oldd)[k2].contains(
                                id2,
                            ));
                        }
                    } else {
                        assert(dense(newd)[k2][id2 as int] == dense(oldd)[k2][id2 as int]);
                        assert(packed(newd)[k2] == packed(oldd)[k2]);
                    }
                }
            }
            assert(entity_masks_match(*final(entity), newd)) by {
                assert forall|w: Find| #[trigger] mask_has(final(entity).component_bitmask, w)
                    == store_has(newd, w, id) by {
                    assert(w == Find::Pos2 && which == Find::Pos2);
                    let m2 = final(entity).component_bitmask;
                    assert(m2 & 1u32 != 1u32) by (bit_vector)
                        requires
                            oldmask & 1u32 == 1u32,
                            m2 + 1u32 == oldmask,
                    ;
                    assert(dense(newd)[kx][id as int] == Component::Empty);
                }
            }
        }
        Ok(())
    }
}

/// Membership agreement: for a well-formed store and an entity whose bitmask
/// is in step with it, the bitmask test, the packed list and the dense slot
/// agree on every kind — an entity has a kind exactly when its id is in the
/// kind's packed list, exactly when its dense slot is non-empty.
pub proof fn lemma_component_presence_agreement(cd: ComponentData, e: Entity, which: Find)
    requires
        store_wf(cd),
        entity_masks_match(e, cd),
        e.id < slot_count(cd),
    ensures
        mask_has(e.component_bitmask, which) == packed_has(cd, which, e.id),
        mask_has(e.component_bitmask, which) == store_has(cd, which, e.id),
{
    assert(mask_has(e.component_bitmask, which) == store_has(cd, which, e.id));
    assert(dense(cd)[kind_index(which)][e.id as int] != Component::Empty <==> packed(
        cd,
    )[kind_index(which)].contains(e.id));
}

} // verus!
