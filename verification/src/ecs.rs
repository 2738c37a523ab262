//! The facade: entity lifecycle, ownership-gated component access, and the
//! dispatch gate for system mutation messages.
//!
//! Callers talk only to `ECS`. It composes the id allocator, the ownership
//! registry and the component store, and keeps them consistent: live ids are
//! exactly the registered ids, every live id has reserved slots, and the
//! slots of a freed id are empty until the id is reused.

use vstd::prelude::*;

verus! {

use crate::component_manager::dense;
use crate::component_manager::entity_masks_match;
use crate::component_manager::kind_bit;
use crate::component_manager::kind_index;
use crate::component_manager::mask_has;
use crate::component_manager::packed;
use crate::component_manager::slot_at;
use crate::component_manager::slot_count;
use crate::component_manager::store_has;
use crate::component_manager::store_wf;
use crate::component_manager::Component;
use crate::component_manager::ComponentData;
use crate::component_manager::ComponentManager;
use crate::component_manager::Find;
use crate::component_manager::KIND_COUNT;
use crate::eid_manager::eid_wf;
use crate::eid_manager::free_ids;
use crate::eid_manager::is_live;
use crate::eid_manager::max_issued;
use crate::eid_manager::EidManager;
use crate::eid_manager::Entity;
use crate::seqs::lemma_push_contains;
use crate::seqs::lemma_remove_first_present;
use crate::seqs::remove_first;
use crate::systems::system_kind;
use crate::systems::PositionSystem;
use crate::systems::System;
use crate::systems::SystemMessage;
use crate::systems::SystemState;

/// Every failure the engine reports to its callers.
#[derive(Clone, Copy, Debug, PartialEq, Eq, Structural)]
pub enum ErrEcs {
    UserNotFound,
    UserDoesNotOwn,
    UnallocatedComponent,
    EidOutOfBounds,
    ComponentAlreadyExists,
    EntityComponentNotFound,
    ComponentCategoryNotFound,
    SystemTransmitterNotFound,
}

/// Wrapper for EidManager and ComponentManager that uses their operations
/// correctly, gating every component operation by ownership.
pub struct ECS {
    eid_manager: EidManager,
    entity_ownership: Vec<(String, Vec<usize>)>,
    component_data: ComponentData,
    position_state: SystemState,
}

/// The id allocator inside the facade.
pub closed spec fn allocator(ecs: ECS) -> EidManager {
    ecs.eid_manager
}

/// The ownership registry: owner identity paired with the owned ids.
pub closed spec fn registry(ecs: ECS) -> Seq<(String, Vec<usize>)> {
    ecs.entity_ownership@
}

/// The component store inside the facade.
pub closed spec fn store(ecs: ECS) -> ComponentData {
    ecs.component_data
}

/// The processing state of the position system's dispatcher.
pub closed spec fn dispatcher_state(ecs: ECS) -> SystemState {
    ecs.position_state
}

/// Whether the registry has an entry for this owner identity.
pub open spec fn reg_has_owner(reg: Seq<(String, Vec<usize>)>, owner: Seq<char>) -> bool {
    exists|i: int| 0 <= i < reg.len() && (#[trigger] reg[i]).0@ == owner
}

/// The registry entry index of this owner identity.
pub open spec fn reg_owner_index(reg: Seq<(String, Vec<usize>)>, owner: Seq<char>) -> int {
    choose|i: int| 0 <= i < reg.len() && (#[trigger] reg[i]).0@ == owner
}

/// The ids this owner identity currently owns (empty for an unknown owner).
pub open spec fn reg_owned(reg: Seq<(String, Vec<usize>)>, owner: Seq<char>) -> Seq<usize> {
    if reg_has_owner(reg, owner) {
        reg[reg_owner_index(reg, owner)].1@
    } else {
        Seq::empty()
    }
}

/// Registry well-formedness: owner identities are distinct, each owned-id
/// list is duplicate-free, and no id is owned by two different entries.
pub open spec fn reg_wf(reg: Seq<(String, Vec<usize>)>) -> bool {
    &&& forall|i: int, j: int|
        0 <= i < j < reg.len() ==> (#[trigger] reg[i]).0@ != (#[trigger] reg[j]).0@
    &&& forall|i: int| 0 <= i < reg.len() ==> (#[trigger] reg[i]).1@.no_duplicates()
    &&& forall|i: int, j: int, a: int, b: int|
        0 <= i < reg.len() && 0 <= j < reg.len() && i != j && 0 <= a < reg[i].1@.len() && 0 <= b
            < reg[j].1@.len() ==> #[trigger] reg[i].1@[a] != #[trigger] reg[j].1@[b]
}

/// Whether the facade knows this owner identity.
pub open spec fn has_owner(ecs: ECS, owner: Seq<char>) -> bool {
    reg_has_owner(registry(ecs), owner)
}

/// The ids this owner identity currently owns.
pub open spec fn owned_ids(ecs: ECS, owner: Seq<char>) -> Seq<usize> {
    reg_owned(registry(ecs), owner)
}

/// Whether this owner identity currently owns this id.
pub open spec fn owns(ecs: ECS, owner: Seq<char>, id: usize) -> bool {
    has_owner(ecs, owner) && owned_ids(ecs, owner).contains(id)
}

/// Whether this id is currently live (issued and not freed).
pub open spec fn live(ecs: ECS, id: usize) -> bool {
    is_live(allocator(ecs), id)
}

/// The dense slot the facade's store holds for this kind and id.
pub open spec fn ecs_slot(ecs: ECS, which: Find, id: usize) -> Component {
    slot_at(store(ecs), which, id)
}

/// Facade well-formedness, tying the three structures together: allocator
/// and store are well formed, the registry is well formed and registers only
/// live ids, every issued id has a reserved slot, the slots of an id that is
/// not live are empty, and the dispatcher is never caught mid-processing.
pub open spec fn ecs_wf(ecs: ECS) -> bool {
    &&& eid_wf(allocator(ecs))
    &&& store_wf(store(ecs))
    &&& reg_wf(registry(ecs))
    &&& max_issued(allocator(ecs)) < slot_count(store(ecs)) || (max_issued(allocator(ecs)) == 0
        && free_ids(allocator(ecs)).contains(0))
    &&& forall|i: int, j: int|
        0 <= i < registry(ecs).len() && 0 <= j < registry(ecs)[i].1@.len() ==> is_live(
            allocator(ecs),
            #[trigger] registry(ecs)[i].1@[j],
        )
    &&& forall|id: usize, which: Find|
        id < slot_count(store(ecs)) && !is_live(allocator(ecs), id) ==> #[trigger] slot_at(
            store(ecs),
            which,
            id,
        ) == Component::Empty
    &&& !(dispatcher_state(ecs) is Processing)
}

/// With distinct owner identities, an entry whose identity matches is the
/// entry the registry lookup denotes.
proof fn lemma_reg_index_unique(reg: Seq<(String, Vec<usize>)>, owner: Seq<char>, i: int)
    requires
        forall|a: int, b: int|
            0 <= a < b < reg.len() ==> (#[trigger] reg[a]).0@ != (#[trigger] reg[b]).0@,
        0 <= i < reg.len(),
        reg[i].0@ == owner,
    ensures
        reg_has_owner(reg, owner),
        reg_owner_index(reg, owner) == i,
{
    assert(reg_has_owner(reg, owner));
    let c = reg_owner_index(reg, owner);
    assert(0 <= c < reg.len() && reg[c].0@ == owner);
    if c != i {
        if c < i {
            assert(reg[c].0@ != reg[i].0@);
        } else {
            assert(reg[i].0@ != reg[c].0@);
        }
    }
}

/// An owned id is live.
pub proof fn lemma_owned_id_is_live(ecs: ECS, owner: Seq<char>, id: usize)
    requires
        ecs_wf(ecs),
        owns(ecs, owner, id),
    ensures
        live(ecs, id),
{
    let reg = registry(ecs);
    let i = reg_owner_index(reg, owner);
    assert(0 <= i < reg.len() && reg[i].0@ == owner);
    let j = choose|j: int| 0 <= j < reg[i].1@.len() && reg[i].1@[j] == id;
    assert(is_live(allocator(ecs), reg[i].1@[j]));
}

/// A live id always has a reserved slot in every dense column.
proof fn lemma_live_bound(ecs: ECS, id: usize)
    requires
        ecs_wf(ecs),
        live(ecs, id),
    ensures
        id < slot_count(store(ecs)),
{
    if !(max_issued(allocator(ecs)) < slot_count(store(ecs))) {
        assert(max_issued(allocator(ecs)) == 0 && free_ids(allocator(ecs)).contains(0));
        assert(id == 0);
        assert(!free_ids(allocator(ecs)).contains(id));
    }
}

/// No id is ever owned by two different owner identities at the same time.
pub proof fn lemma_single_owner(ecs: ECS, owner_a: Seq<char>, owner_b: Seq<char>, id: usize)
    requires
        ecs_wf(ecs),
        owns(ecs, owner_a, id),
        owns(ecs, owner_b, id),
    ensures
        owner_a == owner_b,
{
    let reg = registry(ecs);
    let i = reg_owner_index(reg, owner_a);
    let j = reg_owner_index(reg, owner_b);
    assert(0 <= i < reg.len() && reg[i].0@ == owner_a);
    assert(0 <= j < reg.len() && reg[j].0@ == owner_b);
    if i != j {
        let a = choose|a: int| 0 <= a < reg[i].1@.len() && reg[i].1@[a] == id;
        let b = choose|b: int| 0 <= b < reg[j].1@.len() && reg[j].1@[b] == id;
        assert(reg[i].1@[a] != reg[j].1@[b]);
    }
}

/// Any slot of an id that is not currently live holds the empty sentinel:
/// after a free and a later reuse of the id, a read can only see the empty
/// sentinel, never the previous occupant's value.
pub proof fn lemma_non_live_slots_empty(ecs: ECS, id: usize, which: Find)
    requires
        ecs_wf(ecs),
        id < slot_count(store(ecs)),
        !live(ecs, id),
    ensures
        ecs_slot(ecs, which, id) == Component::Empty,
{
}

/// Finds the registry entry whose owner identity equals `owner`.
fn find_owner_index(reg: &Vec<(String, Vec<usize>)>, owner: &String) -> (r: Option<usize>)
    ensures
        match r {
            Some(i) => 0 <= i < reg@.len() && reg@[i as int].0@ == owner@,
            None => !reg_has_owner(reg@, owner@),
        },
{
    let n = reg.len();
    let mut i: usize = 0;
    while i < n
        invariant
            i <= n,
            n == reg@.len(),
            forall|j: int| 0 <= j < i ==> (#[trigger] reg@[j]).0@ != owner@,
        decreases n - i,
    {
        if reg[i].0 == *owner {
            return Some(i);
        }
        i = i + 1;
    }
    None
}

/// Whether `ids` holds `id`, by linear search.
fn vec_contains_id(ids: &Vec<usize>, id: usize) -> (r: bool)
    ensures
        r == ids@.contains(id),
{
    let n = ids.len();
    let mut i: usize = 0;
    while i < n
        invariant
            i <= n,
            n == ids@.len(),
            forall|j: int| 0 <= j < i ==> ids@[j] != id,
        decreases n - i,
    {
        if ids[i] == id {
            return true;
        }
        i = i + 1;
    }
    proof {
        if ids@.contains(id) {
            let j = choose|j: int| 0 <= j < ids@.len() && ids@[j] == id;
            assert(ids@[j] != id);
        }
    }
    false
}

impl ECS {
    /// An empty engine: nothing live, no owners, no reserved slots, and the
    /// position system idle.
    pub fn new() -> (ecs: ECS)
        ensures
            ecs_wf(ecs),
            slot_count(store(ecs)) == 0,
            forall|o: Seq<char>| !has_owner(ecs, o),
            forall|id: usize| !live(ecs, id),
            max_issued(allocator(ecs)) == 0,
            free_ids(allocator(ecs)) == seq![0usize],
            dispatcher_state(ecs) is Idle,
    {
        let ecs = ECS {
            eid_manager: EidManager::new(),
            entity_ownership: Vec::new(),
            component_data: ComponentData::new(),
            position_state: SystemState::Idle,
        };
        proof {
            assert(free_ids(allocator(ecs))[0] == 0usize);
            assert forall|id: usize| !live(ecs, id) by {
                if id <= max_issued(allocator(ecs)) {
                    assert(free_ids(allocator(ecs))[0] == id);
                }
            }
        }
        ecs
    }

    /// Creates an entity owned by `user`: allocates an id (oldest freed
    /// first, else a fresh maximum), reserves a slot for it in every kind's
    /// dense column, and records the id under `user` in the registry. The
    /// new entity starts with an empty mask and only empty slots.
    pub fn create_for(&mut self, user: &str) -> (e: Entity)
        requires
            ecs_wf(*old(self)),
        ensures
            ecs_wf(*final(self)),
            e.owner@ == user@,
            e.component_bitmask == 0,
            !live(*old(self), e.id),
            live(*final(self), e.id),
            forall|id: usize|
                id != e.id ==> live(*final(self), id) == live(*old(self), id),
            free_ids(allocator(*old(self))).len() > 0 ==> {
                &&& e.id == free_ids(allocator(*old(self)))[0]
                &&& free_ids(allocator(*final(self))) == free_ids(
                    allocator(*old(self)),
                ).drop_first()
                &&& max_issued(allocator(*final(self))) == max_issued(allocator(*old(self)))
            },
            free_ids(allocator(*old(self))).len() == 0 ==> {
                &&& e.id == max_issued(allocator(*old(self))) + 1
                &&& free_ids(allocator(*final(self))).len() == 0
                &&& max_issued(allocator(*final(self))) == max_issued(allocator(*old(self))) + 1
            },
            owns(*final(self), user@, e.id),
            owned_ids(*final(self), user@) == owned_ids(*old(self), user@).push(e.id),
            forall|o: Seq<char>|
                o != user@ ==> #[trigger] owned_ids(*final(self), o) == owned_ids(*old(self), o),
            forall|o: Seq<char>|
                o != user@ ==> #[trigger] has_owner(*final(self), o) == has_owner(*old(self), o),
            has_owner(*final(self), user@),
            slot_count(store(*final(self))) == slot_count(store(*old(self))) + 1,
            forall|which: Find| #[trigger] ecs_slot(*final(self), which, e.id) == Component::Empty,
            entity_masks_match(e, store(*final(self))),
            forall|which: Find, id: usize|
                id < slot_count(store(*old(self))) ==> #[trigger] ecs_slot(*final(self), which, id)
                    == ecs_slot(*old(self), which, id),
            packed(store(*final(self))) == packed(store(*old(self))),
            dispatcher_state(*final(self)) == dispatcher_state(*old(self)),
    {
        proof {
            if free_ids(allocator(*old(self))).len() == 0 {
                assert(max_issued(allocator(*old(self))) < slot_count(store(*old(self))));
                crate::component_manager::lemma_slot_count_bound(store(*old(self)));
            }
        }
        let entity = self.eid_manager.create(user);
        ComponentManager::reserve(&mut self.component_data);
        proof {
            lemma_create_store_facts(*old(self), allocator(*self), store(*self), entity);
        }
        let ghost prev = *old(self);
        let ghost reg0 = registry(*old(self));
        match find_owner_index(&self.entity_ownership, &entity.owner) {
            Some(i) => {
                proof {
                    lemma_reg_index_unique(reg0, user@, i as int);
                }
                self.entity_ownership[i].1.push(entity.id);
                proof {
                    let regn = registry(*self);
                    let ix = i as int;
                    assert(regn.len() == reg0.len());
                    assert(regn[ix].0 == reg0[ix].0);
                    assert(regn[ix].1@ == reg0[ix].1@.push(entity.id));
                    assert(forall|j: int| 0 <= j < regn.len() && j != ix ==> regn[j] == reg0[j]);
                    lemma_create_registry_update(prev, *self, entity, user@, ix);
                }
            },
            None => {
                let mut ids: Vec<usize> = Vec::new();
                ids.push(entity.id);
                let key = entity.owner.clone();
                self.entity_ownership.push((key, ids));
                proof {
                    let regn = registry(*self);
                    assert(regn.len() == reg0.len() + 1);
                    assert(regn[reg0.len() as int].0@ == user@);
                    assert(regn[reg0.len() as int].1@ =~= seq![entity.id]);
                    assert(forall|j: int| 0 <= j < reg0.len() ==> regn[j] == reg0[j]);
                    lemma_create_registry_append(prev, *self, entity, user@);
                }
            },
        }
        entity
    }
}

impl ECS {
    /// Frees an entity: removes its id from its owner's set, clears all of
    /// its component storage, and returns the id to the back of the
    /// allocator's pool so a later creation can reuse it.
    pub fn free(&mut self, entity: Entity)
        requires
            ecs_wf(*old(self)),
            owns(*old(self), entity.owner@, entity.id),
        ensures
            ecs_wf(*final(self)),
            !live(*final(self), entity.id),
            forall|id: usize|
                id != entity.id ==> live(*final(self), id) == live(*old(self), id),
            free_ids(allocator(*final(self))) == free_ids(allocator(*old(self))).push(entity.id),
            max_issued(allocator(*final(self))) == max_issued(allocator(*old(self))),
            forall|o: Seq<char>| #[trigger] has_owner(*final(self), o) == has_owner(*old(self), o),
            owned_ids(*final(self), entity.owner@) == remove_first(
                owned_ids(*old(self), entity.owner@),
                entity.id,
            ),
            forall|o: Seq<char>|
                o != entity.owner@ ==> #[trigger] owned_ids(*final(self), o) == owned_ids(
                    *old(self),
                    o,
                ),
            slot_count(store(*final(self))) == slot_count(store(*old(self))),
            forall|which: Find| #[trigger] ecs_slot(*final(self), which, entity.id)
                == Component::Empty,
            forall|which: Find, id: usize|
                id != entity.id && id < slot_count(store(*old(self))) ==> #[trigger] ecs_slot(
                    *final(self),
                    which,
                    id,
                ) == ecs_slot(*old(self), which, id),
            forall|k: int|
                0 <= k < KIND_COUNT ==> #[trigger] packed(store(*final(self)))[k] == remove_first(
                    packed(store(*old(self)))[k],
                    entity.id,
                ),
            dispatcher_state(*final(self)) == dispatcher_state(*old(self)),
    {
        let ghost prev = *old(self);
        let ghost reg0 = registry(*old(self));
        proof {
            lemma_owned_id_is_live(prev, entity.owner@, entity.id);
            lemma_live_bound(prev, entity.id);
        }
        match find_owner_index(&self.entity_ownership, &entity.owner) {
            Some(i) => {
                proof {
                    lemma_reg_index_unique(reg0, entity.owner@, i as int);
                }
                crate::component_manager::remove_id_value(
                    &mut self.entity_ownership[i].1,
                    entity.id,
                );
            },
            None => {
                proof {
                    assert(false);
                }
            },
        }
        ComponentManager::free(&mut self.component_data, &entity);
        self.eid_manager.free(&entity);
        proof {
            let ix = reg_owner_index(reg0, entity.owner@);
            lemma_free_registry(prev, *self, entity, entity.owner@, ix);
            let alloc0 = allocator(prev);
            let alloc_new = allocator(*self);
            lemma_push_contains(free_ids(alloc0), entity.id, 0);
            assert forall|which: Find| #[trigger] ecs_slot(*self, which, entity.id)
                == Component::Empty by {
                assert(dense(store(*self))[kind_index(which)] == dense(store(prev))[kind_index(
                    which,
                )].update(entity.id as int, Component::Empty));
            }
            assert forall|which: Find, id: usize|
                id != entity.id && id < slot_count(store(prev)) implies #[trigger] ecs_slot(
                *self,
                which,
                id,
            ) == ecs_slot(prev, which, id) by {
                assert(dense(store(*self))[kind_index(which)] == dense(store(prev))[kind_index(
                    which,
                )].update(entity.id as int, Component::Empty));
            }
            assert(slot_count(store(*self)) == slot_count(store(prev))) by {
                assert(dense(store(*self))[0] == dense(store(prev))[0].update(
                    entity.id as int,
                    Component::Empty,
                ));
            }
            assert forall|id: usize, which: Find|
                id < slot_count(store(*self)) && !is_live(alloc_new, id) implies #[trigger] slot_at(
                store(*self),
                which,
                id,
            ) == Component::Empty by {
                if id != entity.id {
                    assert(!is_live(alloc0, id));
                    assert(slot_at(store(prev), which, id) == Component::Empty);
                    assert(ecs_slot(*self, which, id) == ecs_slot(prev, which, id));
                }
            }
        }
    }
}

impl ECS {
    /// Reads a copy of the entity's component of the given kind, after the
    /// ownership gate: the stored value, or the empty sentinel when the
    /// entity lacks the kind. Never a mutable alias into shared storage.
    pub fn read_component(&self, entity: &Entity, which: Find) -> (r: Result<Component, ErrEcs>)
        requires
            ecs_wf(*self),
        ensures
            r is Ok <==> owns(*self, entity.owner@, entity.id),
            !has_owner(*self, entity.owner@) ==> r == Err::<Component, ErrEcs>(ErrEcs::UserNotFound),
            has_owner(*self, entity.owner@) && !owned_ids(*self, entity.owner@).contains(entity.id)
                ==> r == Err::<Component, ErrEcs>(ErrEcs::UserDoesNotOwn),
            owns(*self, entity.owner@, entity.id) ==> r == Ok::<Component, ErrEcs>(
                ecs_slot(*self, which, entity.id),
            ),
    {
        match self.authenticate(entity) {
            Ok(()) => (),
            Err(e) => {
                return Err(e);
            },
        }
        proof {
            lemma_owned_id_is_live(*self, entity.owner@, entity.id);
            lemma_live_bound(*self, entity.id);
        }
        ComponentManager::read_component(&self.component_data, entity, which)
    }

    /// Adds a component to the entity, after the ownership gate. On success
    /// the store and the entity's bitmask change together; on any failure
    /// neither changes at all.
    pub fn add_component(&mut self, entity: &mut Entity, which: Find, component: Component) -> (r:
        Result<(), ErrEcs>)
        requires
            ecs_wf(*old(self)),
            component != Component::Empty,
            owns(*old(self), old(entity).owner@, old(entity).id) ==> entity_masks_match(
                *old(entity),
                store(*old(self)),
            ),
        ensures
            ecs_wf(*final(self)),
            registry(*final(self)) == registry(*old(self)),
            allocator(*final(self)) == allocator(*old(self)),
            dispatcher_state(*final(self)) == dispatcher_state(*old(self)),
            final(entity).id == old(entity).id,
            final(entity).owner == old(entity).owner,
            r is Ok <==> (owns(*old(self), old(entity).owner@, old(entity).id) && !mask_has(
                old(entity).component_bitmask,
                which,
            )),
            !has_owner(*old(self), old(entity).owner@) ==> r == Err::<(), ErrEcs>(
                ErrEcs::UserNotFound,
            ) && *final(self) == *old(self) && *final(entity) == *old(entity),
            has_owner(*old(self), old(entity).owner@) && !owned_ids(
                *old(self),
                old(entity).owner@,
            ).contains(old(entity).id) ==> r == Err::<(), ErrEcs>(ErrEcs::UserDoesNotOwn) && *final(self) == *old(self) && *final(entity) == *old(entity),
            owns(*old(self), old(entity).owner@, old(entity).id) && mask_has(
                old(entity).component_bitmask,
                which,
            ) ==> r == Err::<(), ErrEcs>(ErrEcs::ComponentAlreadyExists) && *final(self) == *old(
                self,
            ) && *final(entity) == *old(entity),
            owns(*old(self), old(entity).owner@, old(entity).id) && !mask_has(
                old(entity).component_bitmask,
                which,
            ) ==> {
                &&& final(entity).component_bitmask == old(entity).component_bitmask | kind_bit(
                    which,
                )
                &&& entity_masks_match(*final(entity), store(*final(self)))
                &&& ecs_slot(*final(self), which, old(entity).id) == component
                &&& slot_count(store(*final(self))) == slot_count(store(*old(self)))
                &&& forall|w: Find, id: usize|
                    !(w == which && id == old(entity).id) && id < slot_count(store(*old(self)))
                        ==> #[trigger] ecs_slot(*final(self), w, id) == ecs_slot(*old(self), w, id)
                &&& packed(store(*final(self))) == packed(store(*old(self))).update(
                    kind_index(which),
                    packed(store(*old(self)))[kind_index(which)].push(old(entity).id),
                )
            },
    {
        match self.authenticate(entity) {
            Ok(()) => (),
            Err(e) => {
                return Err(e);
            },
        }
        proof {
            lemma_owned_id_is_live(*old(self), old(entity).owner@, old(entity).id);
            lemma_live_bound(*old(self), old(entity).id);
        }
        let r = ComponentManager::add_component(&mut self.component_data, entity, which, component);
        proof {
            let prev = *old(self);
            let next = *self;
            let id = old(entity).id;
            if !mask_has(old(entity).component_bitmask, which) {
                assert forall|w: Find, id2: usize|
                    !(w == which && id2 == id) && id2 < slot_count(store(prev))
                        implies #[trigger] ecs_slot(next, w, id2) == ecs_slot(prev, w, id2) by {
                    assert(w == Find::Pos2 && which == Find::Pos2);
                    assert(dense(store(next))[kind_index(w)] == dense(store(prev))[kind_index(
                        w,
                    )].update(id as int, component));
                }
                assert forall|id2: usize, w: Find|
                    id2 < slot_count(store(next)) && !is_live(allocator(next), id2)
                        implies #[trigger] slot_at(store(next), w, id2) == Component::Empty by {
                    assert(id2 != id);
                    assert(ecs_slot(next, w, id2) == ecs_slot(prev, w, id2));
                }
            }
        }
        r
    }

    /// Removes a component from the entity, after the ownership gate. On
    /// success the store and the entity's bitmask change together; on any
    /// failure neither changes at all.
    pub fn remove_component(&mut self, entity: &mut Entity, which: Find) -> (r: Result<(), ErrEcs>)
        requires
            ecs_wf(*old(self)),
            owns(*old(self), old(entity).owner@, old(entity).id) ==> entity_masks_match(
                *old(entity),
                store(*old(self)),
            ),
        ensures
            ecs_wf(*final(self)),
            registry(*final(self)) == registry(*old(self)),
            allocator(*final(self)) == allocator(*old(self)),
            dispatcher_state(*final(self)) == dispatcher_state(*old(self)),
            final(entity).id == old(entity).id,
            final(entity).owner == old(entity).owner,
            r is Ok <==> (owns(*old(self), old(entity).owner@, old(entity).id) && mask_has(
                old(entity).component_bitmask,
                which,
            )),
            !has_owner(*old(self), old(entity).owner@) ==> r == Err::<(), ErrEcs>(
                ErrEcs::UserNotFound,
            ) && *final(self) == *old(self) && *final(entity) == *old(entity),
            has_owner(*old(self), old(entity).owner@) && !owned_ids(
                *old(self),
                old(entity).owner@,
            ).contains(old(entity).id) ==> r == Err::<(), ErrEcs>(ErrEcs::UserDoesNotOwn) && *final(self) == *old(self) && *final(entity) == *old(entity),
            owns(*old(self), old(entity).owner@, old(entity).id) && !mask_has(
                old(entity).component_bitmask,
                which,
            ) ==> r == Err::<(), ErrEcs>(ErrEcs::EntityComponentNotFound) && *final(self) == *old(
                self,
            ) && *final(entity) == *old(entity),
            owns(*old(self), old(entity).owner@, old(entity).id) && mask_has(
                old(entity).component_bitmask,
                which,
            ) ==> {
                &&& final(entity).component_bitmask == old(entity).component_bitmask - kind_bit(
                    which,
                )
                &&& entity_masks_match(*final(entity), store(*final(self)))
                &&& ecs_slot(*final(self), which, old(entity).id) == Component::Empty
                &&& slot_count(store(*final(self))) == slot_count(store(*old(self)))
                &&& forall|w: Find, id: usize|
                    !(w == which && id == old(entity).id) && id < slot_count(store(*old(self)))
                        ==> #[trigger] ecs_slot(*final(self), w, id) == ecs_slot(*old(self), w, id)
                &&& packed(store(*final(self))) == packed(store(*old(self))).update(
                    kind_index(which),
                    remove_first(packed(store(*old(self)))[kind_index(which)], old(entity).id),
                )
            },
    {
        match self.authenticate(entity) {
            Ok(()) => (),
            Err(e) => {
                return Err(e);
            },
        }
        proof {
            lemma_owned_id_is_live(*old(self), old(entity).owner@, old(entity).id);
            lemma_live_bound(*old(self), old(entity).id);
        }
        let r = ComponentManager::remove_component(&mut self.component_data, entity, which);
        proof {
            let prev = *old(self);
            let next = *self;
            let id = old(entity).id;
            if mask_has(old(entity).component_bitmask, which) {
                assert forall|w: Find, id2: usize|
                    !(w == which && id2 == id) && id2 < slot_count(store(prev))
                        implies #[trigger] ecs_slot(next, w, id2) == ecs_slot(prev, w, id2) by {
                    assert(w == Find::Pos2 && which == Find::Pos2);
                    assert(dense(store(next))[kind_index(w)] == dense(store(prev))[kind_index(
                        w,
                    )].update(id as int, Component::Empty));
                }
                assert forall|id2: usize, w: Find|
                    id2 < slot_count(store(next)) && !is_live(allocator(next), id2)
                        implies #[trigger] slot_at(store(next), w, id2) == Component::Empty by {
                    assert(id2 != id);
                    assert(ecs_slot(next, w, id2) == ecs_slot(prev, w, id2));
                }
            }
        }
        r
    }
}

impl ECS {
    /// Hands a mutation message to a system, after the ownership gate. The
    /// dispatcher accepts only while the system is running (a stop is
    /// terminal) and only for an entity that currently has the system's
    /// component kind; an accepted message is executed as one unit of work
    /// against the store, and a stop message stops the system for good.
    pub fn system_send(&mut self, entity: &Entity, which: System, msg: SystemMessage) -> (r: Result<
        (),
        ErrEcs,
    >)
        requires
            ecs_wf(*old(self)),
            owns(*old(self), entity.owner@, entity.id) ==> entity_masks_match(
                *entity,
                store(*old(self)),
            ),
        ensures
            ecs_wf(*final(self)),
            registry(*final(self)) == registry(*old(self)),
            allocator(*final(self)) == allocator(*old(self)),
            r is Ok <==> (owns(*old(self), entity.owner@, entity.id) && dispatcher_state(
                *old(self),
            ) is Idle && mask_has(entity.component_bitmask, system_kind(which))),
            !has_owner(*old(self), entity.owner@) ==> r == Err::<(), ErrEcs>(ErrEcs::UserNotFound)
                && *final(self) == *old(self),
            has_owner(*old(self), entity.owner@) && !owned_ids(*old(self), entity.owner@).contains(
                entity.id,
            ) ==> r == Err::<(), ErrEcs>(ErrEcs::UserDoesNotOwn) && *final(self) == *old(self),
            owns(*old(self), entity.owner@, entity.id) && dispatcher_state(*old(self)) is Stopped
                ==> r == Err::<(), ErrEcs>(ErrEcs::SystemTransmitterNotFound) && *final(self)
                == *old(self),
            owns(*old(self), entity.owner@, entity.id) && dispatcher_state(*old(self)) is Idle
                && !mask_has(entity.component_bitmask, system_kind(which)) ==> r == Err::<
                (),
                ErrEcs,
            >(ErrEcs::EntityComponentNotFound) && *final(self) == *old(self),
            owns(*old(self), entity.owner@, entity.id) && dispatcher_state(*old(self)) is Idle
                && mask_has(entity.component_bitmask, system_kind(which)) ==> {
                &&& r is Ok
                &&& (msg is Stop ==> dispatcher_state(*final(self)) is Stopped && store(
                    *final(self),
                ) == store(*old(self)))
                &&& (!(msg is Stop) ==> dispatcher_state(*final(self)) is Idle)
                &&& (match msg {
                    SystemMessage::Pos2Set(v2) => {
                        &&& ecs_slot(*final(self), system_kind(which), entity.id)
                            == Component::Pos2(v2)
                        &&& slot_count(store(*final(self))) == slot_count(store(*old(self)))
                        &&& forall|w: Find, id: usize|
                            !(w == system_kind(which) && id == entity.id) && id < slot_count(
                                store(*old(self)),
                            ) ==> #[trigger] ecs_slot(*final(self), w, id) == ecs_slot(
                                *old(self),
                                w,
                                id,
                            )
                        &&& packed(store(*final(self))) == packed(store(*old(self)))
                    },
                    SystemMessage::Stop => store(*final(self)) == store(*old(self)),
                    _ => store(*final(self)) == store(*old(self)),
                })
            },
    {
        match self.authenticate(entity) {
            Ok(()) => (),
            Err(e) => {
                return Err(e);
            },
        }
        match self.position_state {
            SystemState::Stopped => {
                return Err(ErrEcs::SystemTransmitterNotFound);
            },
            _ => (),
        }
        let kind = which.component_kind();
        if !ComponentManager::entity_has_component(entity, &kind) {
            return Err(ErrEcs::EntityComponentNotFound);
        }
        proof {
            lemma_owned_id_is_live(*old(self), entity.owner@, entity.id);
            lemma_live_bound(*old(self), entity.id);
        }
        match msg {
            SystemMessage::Stop => {
                self.position_state = SystemState::Stopped;
                Ok(())
            },
            _ => {
                self.position_state = SystemState::Processing;
                match which {
                    System::Position => {
                        PositionSystem::handle_message(&mut self.component_data, entity, msg);
                    },
                }
                self.position_state = SystemState::Idle;
                proof {
                    let prev = *old(self);
                    let next = *self;
                    let id = entity.id;
                    match msg {
                        SystemMessage::Pos2Set(v2) => {
                        assert(store_has(store(prev), system_kind(which), id));
                        assert(id < dense(store(prev))[kind_index(Find::Pos2)].len());
                        assert(dense(store(next))[kind_index(Find::Pos2)] == dense(
                            store(prev),
                        )[kind_index(Find::Pos2)].update(id as int, Component::Pos2(v2)));
                        assert(slot_count(store(next)) == slot_count(store(prev))) by {
                            assert(dense(store(next))[0].len() == dense(store(prev))[0].len());
                        }
                        assert(store_wf(store(next))) by {
                            assert forall|k2: int, id2: usize|
                                0 <= k2 < KIND_COUNT && id2 < slot_count(store(next))
                                    implies ((#[trigger] dense(store(next))[k2][id2 as int])
                                != Component::Empty <==> packed(store(next))[k2].contains(
                                id2,
                            )) by {
                                if k2 == kind_index(Find::Pos2) && id2 == id {
                                    assert(dense(store(next))[k2][id2 as int] == Component::Pos2(
                                        v2,
                                    ));
                                    assert(dense(store(prev))[k2][id2 as int] != Component::Empty);
                                } else {
                                    assert(dense(store(next))[k2][id2 as int] == dense(
                                        store(prev),
                                    )[k2][id2 as int]);
                                }
                            }
                        }
                        assert forall|w: Find, id2: usize|
                            !(w == system_kind(which) && id2 == id) && id2 < slot_count(
                                store(prev),
                            ) implies #[trigger] ecs_slot(next, w, id2) == ecs_slot(
                            prev,
                            w,
                            id2,
                        ) by {
                            assert(w == Find::Pos2);
                        }
                        assert forall|id2: usize, w: Find|
                            id2 < slot_count(store(next)) && !is_live(allocator(next), id2)
                                implies #[trigger] slot_at(store(next), w, id2)
                            == Component::Empty by {
                            assert(id2 != id);
                            assert(ecs_slot(next, w, id2) == ecs_slot(prev, w, id2));
                        }
                        },
                        _ => {},
                    }
                }
                Ok(())
            },
        }
    }
}

/// Taking one id out of one owner entry keeps the registry well formed and
/// in step with an allocator in which exactly that id stopped being live.
proof fn lemma_free_registry(prev: ECS, next: ECS, e: Entity, user: Seq<char>, ix: int)
    requires
        ecs_wf(prev),
        !is_live(allocator(next), e.id),
        forall|id: usize|
            id != e.id ==> is_live(allocator(next), id) == is_live(allocator(prev), id),
        0 <= ix < registry(prev).len(),
        registry(prev)[ix].0@ == user,
        registry(prev)[ix].1@.contains(e.id),
        registry(next).len() == registry(prev).len(),
        registry(next)[ix].0 == registry(prev)[ix].0,
        registry(next)[ix].1@ == remove_first(registry(prev)[ix].1@, e.id),
        forall|j: int|
            0 <= j < registry(next).len() && j != ix ==> #[trigger] registry(next)[j] == registry(
                prev,
            )[j],
    ensures
        reg_wf(registry(next)),
        forall|i: int, j: int|
            0 <= i < registry(next).len() && 0 <= j < registry(next)[i].1@.len() ==> is_live(
                allocator(next),
                #[trigger] registry(next)[i].1@[j],
            ),
        forall|o: Seq<char>| #[trigger] has_owner(next, o) == has_owner(prev, o),
        owned_ids(next, user) == remove_first(owned_ids(prev, user), e.id),
        forall|o: Seq<char>|
            o != user ==> #[trigger] owned_ids(next, o) == owned_ids(prev, o),
{
    let reg0 = registry(prev);
    let regn = registry(next);
    assert forall|j: int| 0 <= j < regn.len() implies (#[trigger] regn[j]).0@ == reg0[j].0@ by {
        if j != ix {
            assert(regn[j] == reg0[j]);
        }
    }
    lemma_remove_first_present(reg0[ix].1@, e.id);
    assert(reg_wf(regn)) by {
        assert forall|a: int, b: int| 0 <= a < b < regn.len() implies (#[trigger] regn[a]).0@
            != (#[trigger] regn[b]).0@ by {
            assert(reg0[a].0@ != reg0[b].0@);
        }
        assert forall|i: int| 0 <= i < regn.len() implies (#[trigger] regn[i]).1@.no_duplicates() by {
            if i != ix {
                assert(regn[i] == reg0[i]);
            }
        }
        assert forall|i: int, j: int, a: int, b: int|
            0 <= i < regn.len() && 0 <= j < regn.len() && i != j && 0 <= a < regn[i].1@.len() && 0
                <= b < regn[j].1@.len() implies #[trigger] regn[i].1@[a] != #[trigger] regn[j].1@[b] by {
            if i == ix {
                assert(regn[j] == reg0[j]);
                let x = regn[i].1@[a];
                assert(regn[i].1@.contains(x));
                assert(reg0[i].1@.contains(x));
                let a0 = choose|a0: int| 0 <= a0 < reg0[i].1@.len() && reg0[i].1@[a0] == x;
                assert(reg0[i].1@[a0] != reg0[j].1@[b]);
            } else if j == ix {
                assert(regn[i] == reg0[i]);
                let x = regn[j].1@[b];
                assert(regn[j].1@.contains(x));
                assert(reg0[j].1@.contains(x));
                let b0 = choose|b0: int| 0 <= b0 < reg0[j].1@.len() && reg0[j].1@[b0] == x;
                assert(reg0[i].1@[a] != reg0[j].1@[b0]);
            } else {
                assert(regn[i] == reg0[i] && regn[j] == reg0[j]);
            }
        }
    }
    assert forall|i: int, j: int|
        0 <= i < regn.len() && 0 <= j < regn[i].1@.len() implies is_live(
        allocator(next),
        #[trigger] regn[i].1@[j],
    ) by {
        let x = regn[i].1@[j];
        if i == ix {
            assert(regn[i].1@.contains(x));
            assert(reg0[i].1@.contains(x) && x != e.id);
            let j0 = choose|j0: int| 0 <= j0 < reg0[i].1@.len() && reg0[i].1@[j0] == x;
            assert(is_live(allocator(prev), reg0[i].1@[j0]));
        } else {
            assert(regn[i] == reg0[i]);
            assert(is_live(allocator(prev), reg0[i].1@[j]));
            assert(x != e.id) by {
                if x == e.id {
                    assert(reg0[i].1@[j] == e.id);
                    let a0 = choose|a0: int|
                        0 <= a0 < reg0[ix].1@.len() && reg0[ix].1@[a0] == e.id;
                    assert(reg0[i].1@[j] != reg0[ix].1@[a0]);
                }
            }
        }
    }
    assert forall|o: Seq<char>| #[trigger] has_owner(next, o) == has_owner(prev, o) by {
        if reg_has_owner(reg0, o) {
            let c = reg_owner_index(reg0, o);
            assert(regn[c].0@ == reg0[c].0@);
            assert(reg_has_owner(regn, o));
        }
        if reg_has_owner(regn, o) {
            let c = reg_owner_index(regn, o);
            assert(reg0[c].0@ == regn[c].0@);
            assert(reg_has_owner(reg0, o));
        }
    }
    lemma_reg_index_unique(reg0, user, ix);
    assert forall|a: int, b: int| 0 <= a < b < regn.len() implies (#[trigger] regn[a]).0@
        != (#[trigger] regn[b]).0@ by {
        assert(reg0[a].0@ != reg0[b].0@);
    }
    lemma_reg_index_unique(regn, user, ix);
    assert(owned_ids(next, user) == remove_first(owned_ids(prev, user), e.id));
    assert forall|o: Seq<char>| o != user implies #[trigger] owned_ids(next, o) == owned_ids(
        prev,
        o,
    ) by {
        if reg_has_owner(regn, o) {
            let c = reg_owner_index(regn, o);
            assert(0 <= c < regn.len() && regn[c].0@ == o);
            assert(c != ix);
            assert(regn[c] == reg0[c]);
            lemma_reg_index_unique(reg0, o, c);
        } else {
            assert(!reg_has_owner(reg0, o)) by {
                if reg_has_owner(reg0, o) {
                    let c = reg_owner_index(reg0, o);
                    assert(regn[c].0@ == reg0[c].0@);
                    assert(reg_has_owner(regn, o));
                }
            }
        }
    }
}

/// After allocating an id and reserving a slot for it: the new id is in
/// bounds, its slots are all empty, previously reserved slots are unchanged,
/// and the store stays in step with the allocator.
proof fn lemma_create_store_facts(
    prev: ECS,
    alloc_new: EidManager,
    store_new: ComponentData,
    e: Entity,
)
    requires
        ecs_wf(prev),
        e.component_bitmask == 0,
        eid_wf(alloc_new),
        !is_live(allocator(prev), e.id),
        is_live(alloc_new, e.id),
        forall|id: usize| id != e.id ==> is_live(alloc_new, id) == is_live(allocator(prev), id),
        free_ids(allocator(prev)).len() > 0 ==> e.id == free_ids(allocator(prev))[0] && max_issued(
            alloc_new,
        ) == max_issued(allocator(prev)),
        free_ids(allocator(prev)).len() == 0 ==> e.id == max_issued(allocator(prev)) + 1
            && max_issued(alloc_new) == max_issued(allocator(prev)) + 1,
        store_wf(store_new),
        slot_count(store_new) == slot_count(store(prev)) + 1,
        forall|k: int|
            0 <= k < KIND_COUNT ==> #[trigger] dense(store_new)[k] == dense(store(prev))[k].push(
                Component::Empty,
            ),
        packed(store_new) == packed(store(prev)),
    ensures
        e.id < slot_count(store_new),
        max_issued(alloc_new) < slot_count(store_new),
        forall|which: Find| #[trigger] slot_at(store_new, which, e.id) == Component::Empty,
        entity_masks_match(e, store_new),
        forall|which: Find, id: usize|
            id < slot_count(store(prev)) ==> #[trigger] slot_at(store_new, which, id) == slot_at(
                store(prev),
                which,
                id,
            ),
        forall|id: usize, which: Find|
            id < slot_count(store_new) && !is_live(alloc_new, id) ==> #[trigger] slot_at(
                store_new,
                which,
                id,
            ) == Component::Empty,
{
    let alloc0 = allocator(prev);
    let store0 = store(prev);
    assert(max_issued(alloc_new) < slot_count(store_new)) by {
        if max_issued(alloc0) < slot_count(store0) {
        } else {
            assert(max_issued(alloc0) == 0 && free_ids(alloc0).contains(0));
        }
    }
    assert(e.id < slot_count(store_new)) by {
        if free_ids(alloc0).len() > 0 {
            assert(free_ids(alloc0)[0] <= max_issued(alloc0));
            if max_issued(alloc0) < slot_count(store0) {
            } else {
                assert(max_issued(alloc0) == 0);
            }
        } else {
            assert(e.id == max_issued(alloc_new));
        }
    }
    assert forall|which: Find, id: usize| id < slot_count(store0) implies #[trigger] slot_at(
        store_new,
        which,
        id,
    ) == slot_at(store0, which, id) by {
        assert(dense(store_new)[kind_index(which)] == dense(store0)[kind_index(which)].push(
            Component::Empty,
        ));
    }
    assert forall|which: Find| #[trigger] slot_at(store_new, which, e.id)
        == Component::Empty by {
        assert(dense(store_new)[kind_index(which)] == dense(store0)[kind_index(which)].push(
            Component::Empty,
        ));
        if e.id < slot_count(store0) {
            assert(slot_at(store_new, which, e.id) == slot_at(store0, which, e.id));
            assert(slot_at(store0, which, e.id) == Component::Empty);
        } else {
            assert(e.id == slot_count(store0));
            assert(dense(store_new)[kind_index(which)][e.id as int] == Component::Empty);
        }
    }
    assert forall|which: Find| #[trigger] mask_has(e.component_bitmask, which) == (slot_at(
        store_new,
        which,
        e.id,
    ) != Component::Empty) by {
        assert(0u32 & 1u32 != 1u32) by (bit_vector);
        assert(which == Find::Pos2);
    }
    assert forall|id: usize, which: Find|
        id < slot_count(store_new) && !is_live(alloc_new, id) implies #[trigger] slot_at(
        store_new,
        which,
        id,
    ) == Component::Empty by {
        assert(id != e.id);
        assert(!is_live(alloc0, id));
        if id < slot_count(store0) {
            assert(slot_at(store0, which, id) == Component::Empty);
        } else {
            assert(id == slot_count(store0));
            assert(dense(store_new)[kind_index(which)] == dense(store0)[kind_index(which)].push(
                Component::Empty,
            ));
        }
    }
}

/// Finishing a creation that pushed the new id onto an existing owner entry:
/// the registry is well formed again, registers only live ids, and ownership
/// changed only for that one owner.
proof fn lemma_create_registry_update(prev: ECS, next: ECS, e: Entity, user: Seq<char>, ix: int)
    requires
        ecs_wf(prev),
        !is_live(allocator(prev), e.id),
        is_live(allocator(next), e.id),
        forall|id: usize|
            id != e.id ==> is_live(allocator(next), id) == is_live(allocator(prev), id),
        0 <= ix < registry(prev).len(),
        registry(prev)[ix].0@ == user,
        registry(next).len() == registry(prev).len(),
        registry(next)[ix].0 == registry(prev)[ix].0,
        registry(next)[ix].1@ == registry(prev)[ix].1@.push(e.id),
        forall|j: int|
            0 <= j < registry(next).len() && j != ix ==> #[trigger] registry(next)[j] == registry(
                prev,
            )[j],
    ensures
        reg_wf(registry(next)),
        forall|i: int, j: int|
            0 <= i < registry(next).len() && 0 <= j < registry(next)[i].1@.len() ==> is_live(
                allocator(next),
                #[trigger] registry(next)[i].1@[j],
            ),
        has_owner(next, user),
        owns(next, user, e.id),
        owned_ids(next, user) == owned_ids(prev, user).push(e.id),
        forall|o: Seq<char>|
            o != user ==> #[trigger] owned_ids(next, o) == owned_ids(prev, o),
        forall|o: Seq<char>| o != user ==> #[trigger] has_owner(next, o) == has_owner(prev, o),
{
    let reg0 = registry(prev);
    let regn = registry(next);
    assert forall|j: int| 0 <= j < regn.len() implies (#[trigger] regn[j]).0@ == reg0[j].0@ by {
        if j != ix {
            assert(regn[j] == reg0[j]);
        }
    }
    assert forall|j: int, b: int|
        0 <= j < reg0.len() && 0 <= b < reg0[j].1@.len() implies #[trigger] reg0[j].1@[b]
        != e.id by {
        assert(is_live(allocator(prev), reg0[j].1@[b]));
    }
    assert(!reg0[ix].1@.contains(e.id)) by {
        if reg0[ix].1@.contains(e.id) {
            let b = choose|b: int| 0 <= b < reg0[ix].1@.len() && reg0[ix].1@[b] == e.id;
            assert(reg0[ix].1@[b] != e.id);
        }
    }
    crate::seqs::lemma_push_no_dup(reg0[ix].1@, e.id);
    assert(reg_wf(regn)) by {
        assert forall|a: int, b: int| 0 <= a < b < regn.len() implies (#[trigger] regn[a]).0@
            != (#[trigger] regn[b]).0@ by {
            assert(reg0[a].0@ != reg0[b].0@);
        }
        assert forall|i: int| 0 <= i < regn.len() implies (#[trigger] regn[i]).1@.no_duplicates() by {
            if i != ix {
                assert(regn[i] == reg0[i]);
            }
        }
        assert forall|i: int, j: int, a: int, b: int|
            0 <= i < regn.len() && 0 <= j < regn.len() && i != j && 0 <= a < regn[i].1@.len() && 0
                <= b < regn[j].1@.len() implies #[trigger] regn[i].1@[a] != #[trigger] regn[j].1@[b] by {
            if i == ix {
                assert(regn[j] == reg0[j]);
                if a < reg0[ix].1@.len() {
                    assert(regn[i].1@[a] == reg0[i].1@[a]);
                } else {
                    assert(regn[i].1@[a] == e.id);
                    assert(reg0[j].1@[b] != e.id);
                }
            } else if j == ix {
                assert(regn[i] == reg0[i]);
                if b < reg0[ix].1@.len() {
                    assert(regn[j].1@[b] == reg0[j].1@[b]);
                } else {
                    assert(regn[j].1@[b] == e.id);
                    assert(reg0[i].1@[a] != e.id);
                }
            } else {
                assert(regn[i] == reg0[i] && regn[j] == reg0[j]);
            }
        }
    }
    assert forall|i: int, j: int|
        0 <= i < regn.len() && 0 <= j < regn[i].1@.len() implies is_live(
        allocator(next),
        #[trigger] regn[i].1@[j],
    ) by {
        if i == ix && j == reg0[ix].1@.len() {
            assert(regn[i].1@[j] == e.id);
        } else {
            let x = if i == ix {
                reg0[i].1@[j]
            } else {
                regn[i].1@[j]
            };
            if i != ix {
                assert(regn[i] == reg0[i]);
            } else {
                assert(regn[i].1@[j] == reg0[i].1@[j]);
            }
            assert(is_live(allocator(prev), reg0[i].1@[j]));
            assert(reg0[i].1@[j] != e.id);
        }
    }
    lemma_reg_index_unique(reg0, user, ix);
    assert forall|a: int, b: int| 0 <= a < b < regn.len() implies (#[trigger] regn[a]).0@
        != (#[trigger] regn[b]).0@ by {
        assert(reg0[a].0@ != reg0[b].0@);
    }
    lemma_reg_index_unique(regn, user, ix);
    assert(owned_ids(next, user) == owned_ids(prev, user).push(e.id));
    lemma_push_contains(reg0[ix].1@, e.id, e.id);
    assert(owns(next, user, e.id));
    assert forall|o: Seq<char>| o != user implies #[trigger] has_owner(next, o) == has_owner(
        prev,
        o,
    ) by {
        if reg_has_owner(reg0, o) {
            let c = reg_owner_index(reg0, o);
            assert(regn[c].0@ == reg0[c].0@);
            assert(reg_has_owner(regn, o));
        }
        if reg_has_owner(regn, o) {
            let c = reg_owner_index(regn, o);
            assert(reg0[c].0@ == regn[c].0@);
            assert(reg_has_owner(reg0, o));
        }
    }
    assert forall|o: Seq<char>| o != user implies #[trigger] owned_ids(next, o) == owned_ids(
        prev,
        o,
    ) by {
        if reg_has_owner(regn, o) {
            let c = reg_owner_index(regn, o);
            assert(0 <= c < regn.len() && regn[c].0@ == o);
            assert(c != ix);
            assert(regn[c] == reg0[c]);
            lemma_reg_index_unique(reg0, o, c);
        } else {
            assert(!reg_has_owner(reg0, o)) by {
                if reg_has_owner(reg0, o) {
                    let c = reg_owner_index(reg0, o);
                    assert(regn[c].0@ == reg0[c].0@);
                    assert(reg_has_owner(regn, o));
                }
            }
        }
    }
}

/// Finishing a creation that appended a fresh owner entry: the registry is
/// well formed again, registers only live ids, and ownership changed only
/// for the new owner.
proof fn lemma_create_registry_append(prev: ECS, next: ECS, e: Entity, user: Seq<char>)
    requires
        ecs_wf(prev),
        !is_live(allocator(prev), e.id),
        is_live(allocator(next), e.id),
        forall|id: usize|
            id != e.id ==> is_live(allocator(next), id) == is_live(allocator(prev), id),
        !reg_has_owner(registry(prev), user),
        registry(next).len() == registry(prev).len() + 1,
        registry(next)[registry(prev).len() as int].0@ == user,
        registry(next)[registry(prev).len() as int].1@ == seq![e.id],
        forall|j: int|
            0 <= j < registry(prev).len() ==> #[trigger] registry(next)[j] == registry(prev)[j],
    ensures
        reg_wf(registry(next)),
        forall|i: int, j: int|
            0 <= i < registry(next).len() && 0 <= j < registry(next)[i].1@.len() ==> is_live(
                allocator(next),
                #[trigger] registry(next)[i].1@[j],
            ),
        has_owner(next, user),
        owns(next, user, e.id),
        owned_ids(next, user) == owned_ids(prev, user).push(e.id),
        forall|o: Seq<char>|
            o != user ==> #[trigger] owned_ids(next, o) == owned_ids(prev, o),
        forall|o: Seq<char>| o != user ==> #[trigger] has_owner(next, o) == has_owner(prev, o),
{
    let reg0 = registry(prev);
    let regn = registry(next);
    let nx = reg0.len() as int;
    assert forall|j: int, b: int|
        0 <= j < reg0.len() && 0 <= b < reg0[j].1@.len() implies #[trigger] reg0[j].1@[b]
        != e.id by {
        assert(is_live(allocator(prev), reg0[j].1@[b]));
    }
    assert forall|j: int| 0 <= j < reg0.len() implies (#[trigger] reg0[j]).0@ != user by {
        if reg0[j].0@ == user {
            assert(reg_has_owner(reg0, user));
        }
    }
    assert(reg_wf(regn)) by {
        assert forall|a: int, b: int| 0 <= a < b < regn.len() implies (#[trigger] regn[a]).0@
            != (#[trigger] regn[b]).0@ by {
            if b < nx {
                assert(regn[a] == reg0[a] && regn[b] == reg0[b]);
            } else {
                assert(regn[a] == reg0[a]);
                assert(regn[b].0@ == user);
            }
        }
        assert forall|i: int| 0 <= i < regn.len() implies (#[trigger] regn[i]).1@.no_duplicates() by {
            if i < nx {
                assert(regn[i] == reg0[i]);
            } else {
                assert(regn[i].1@ == seq![e.id]);
            }
        }
        assert forall|i: int, j: int, a: int, b: int|
            0 <= i < regn.len() && 0 <= j < regn.len() && i != j && 0 <= a < regn[i].1@.len() && 0
                <= b < regn[j].1@.len() implies #[trigger] regn[i].1@[a] != #[trigger] regn[j].1@[b] by {
            if i == nx {
                assert(regn[j] == reg0[j]);
                assert(regn[i].1@[a] == e.id);
                assert(reg0[j].1@[b] != e.id);
            } else if j == nx {
                assert(regn[i] == reg0[i]);
                assert(regn[j].1@[b] == e.id);
                assert(reg0[i].1@[a] != e.id);
            } else {
                assert(regn[i] == reg0[i] && regn[j] == reg0[j]);
            }
        }
    }
    assert forall|i: int, j: int|
        0 <= i < regn.len() && 0 <= j < regn[i].1@.len() implies is_live(
        allocator(next),
        #[trigger] regn[i].1@[j],
    ) by {
        if i == nx {
            assert(regn[i].1@[j] == e.id);
        } else {
            assert(regn[i] == reg0[i]);
            assert(is_live(allocator(prev), reg0[i].1@[j]));
            assert(reg0[i].1@[j] != e.id);
        }
    }
    assert(reg_has_owner(regn, user));
    assert forall|a: int, b: int| 0 <= a < b < regn.len() implies (#[trigger] regn[a]).0@
        != (#[trigger] regn[b]).0@ by {
        if b < nx {
            assert(regn[a] == reg0[a] && regn[b] == reg0[b]);
        } else {
            assert(regn[a] == reg0[a]);
        }
    }
    lemma_reg_index_unique(regn, user, nx);
    assert(owned_ids(next, user) == seq![e.id]);
    assert(owned_ids(prev, user) == Seq::<usize>::empty());
    assert(owned_ids(next, user) =~= owned_ids(prev, user).push(e.id));
    assert(owned_ids(next, user).contains(e.id)) by {
        assert(owned_ids(next, user)[0] == e.id);
    }
    assert forall|o: Seq<char>| o != user implies #[trigger] has_owner(next, o) == has_owner(
        prev,
        o,
    ) by {
        if reg_has_owner(reg0, o) {
            let c = reg_owner_index(reg0, o);
            assert(regn[c].0@ == reg0[c].0@);
            assert(reg_has_owner(regn, o));
        }
        if reg_has_owner(regn, o) {
            let c = reg_owner_index(regn, o);
            assert(c != nx);
            assert(reg0[c].0@ == regn[c].0@);
            assert(reg_has_owner(reg0, o));
        }
    }
    assert forall|o: Seq<char>| o != user implies #[trigger] owned_ids(next, o) == owned_ids(
        prev,
        o,
    ) by {
        if reg_has_owner(regn, o) {
            let c = reg_owner_index(regn, o);
            assert(0 <= c < regn.len() && regn[c].0@ == o);
            assert(c != nx);
            assert(regn[c] == reg0[c]);
            lemma_reg_index_unique(reg0, o, c);
        } else {
            assert(!reg_has_owner(reg0, o)) by {
                if reg_has_owner(reg0, o) {
                    let c = reg_owner_index(reg0, o);
                    assert(regn[c].0@ == reg0[c].0@);
                    assert(reg_has_owner(regn, o));
                }
            }
        }
    }
}

impl ECS {
    /// Checks that the entity's presented owner identity currently owns the
    /// entity's id: the single capability gate guarding every operation.
    fn authenticate(&self, entity: &Entity) -> (r: Result<(), ErrEcs>)
        requires
            ecs_wf(*self),
        ensures
            r is Ok <==> owns(*self, entity.owner@, entity.id),
            r == Err::<(), ErrEcs>(ErrEcs::UserNotFound) <==> !has_owner(*self, entity.owner@),
            r == Err::<(), ErrEcs>(ErrEcs::UserDoesNotOwn) <==> (has_owner(*self, entity.owner@)
                && !owned_ids(*self, entity.owner@).contains(entity.id)),
    {
        match find_owner_index(&self.entity_ownership, &entity.owner) {
            Some(i) => {
                proof {
                    lemma_reg_index_unique(registry(*self), entity.owner@, i as int);
                }
                if vec_contains_id(&self.entity_ownership[i].1, entity.id) {
                    Ok(())
                } else {
                    Err(ErrEcs::UserDoesNotOwn)
                }
            },
            None => Err(ErrEcs::UserNotFound),
        }
    }
}

} // verus!
