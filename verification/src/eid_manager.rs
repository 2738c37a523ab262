//! Entity ids and their allocator.
//!
//! Ids are issued either fresh (a new monotonic maximum) or recycled from a
//! FIFO pool of previously freed ids, so the oldest freed id is always reused
//! before any higher fresh id is issued.

use vstd::prelude::*;

verus! {

use crate::seqs::lemma_drop_first_contains;
use crate::seqs::lemma_no_dup_drop_first;
use crate::seqs::lemma_push_contains;
use crate::seqs::lemma_push_no_dup;
use queues::IsQueue;
use queues::Queue;

/// One logical object: an id, the bitmask of component kinds currently stored
/// for the id, and the identity of the owner that created it.
#[derive(Clone, Debug)]
pub struct Entity {
    pub id: usize,
    pub component_bitmask: u32,
    pub owner: String,
}

/// The recycled-id pool lives in `queues::Queue`; Verus sees values of the
/// type only through the wrappers below.
#[verifier::external_type_specification]
#[verifier::external_body]
#[verifier::reject_recursive_types(T)]
pub struct ExQueue<T: Clone>(Queue<T>);

/// The ids held by a recycled-id queue, oldest first.
pub uninterp spec fn queue_elems(q: Queue<usize>) -> Seq<usize>;

/// Relies on queues::Queue::new: returns a queue holding no elements.
#[verifier::external_body]
fn queue_new() -> (q: Queue<usize>)
    ensures
        queue_elems(q) == Seq::<usize>::empty(),
{
    Queue::new()
}

/// Relies on queues::Queue::add (its IsQueue impl): appends the value at the
/// back of the queue; on this unbounded queue it always returns Ok(None).
#[verifier::external_body]
fn queue_add(q: &mut Queue<usize>, v: usize)
    ensures
        queue_elems(*final(q)) == queue_elems(*old(q)).push(v),
{
    let _ = q.add(v);
}

/// Relies on queues::Queue::remove (its IsQueue impl): takes the oldest
/// element out of the queue, and reports an error when the queue is empty.
#[verifier::external_body]
fn queue_remove(q: &mut Queue<usize>) -> (r: Option<usize>)
    ensures
        queue_elems(*old(q)).len() == 0 ==> r is None && queue_elems(*final(q)) == queue_elems(*old(q)),
        queue_elems(*old(q)).len() > 0 ==> {
            &&& r == Some(queue_elems(*old(q))[0])
            &&& queue_elems(*final(q)) == queue_elems(*old(q)).drop_first()
        },
{
    match q.remove() {
        Ok(v) => Some(v),
        Err(_) => None,
    }
}

/// Issues and recycles entity ids.
pub struct EidManager {
    eid_max: usize,
    eid_q: Queue<usize>,
}

/// The pool of freed ids waiting to be reused, oldest first.
pub closed spec fn free_ids(m: EidManager) -> Seq<usize> {
    queue_elems(m.eid_q)
}

/// The highest id handed out so far (id 0 is pooled from the start).
pub closed spec fn max_issued(m: EidManager) -> usize {
    m.eid_max
}

/// Allocator well-formedness: the pool holds each id at most once, and only
/// ids that have been issued before.
pub open spec fn eid_wf(m: EidManager) -> bool {
    &&& free_ids(m).no_duplicates()
    &&& forall|i: int| 0 <= i < free_ids(m).len() ==> #[trigger] free_ids(m)[i] <= max_issued(m)
}

/// An id is live when it has been issued and is not waiting in the pool.
pub open spec fn is_live(m: EidManager, id: usize) -> bool {
    id <= max_issued(m) && !free_ids(m).contains(id)
}

impl EidManager {
    /// A fresh allocator: nothing issued yet, and id 0 pooled so that the
    /// first creation hands out id 0.
    pub fn new() -> (m: EidManager)
        ensures
            eid_wf(m),
            max_issued(m) == 0,
            free_ids(m) == seq![0usize],
            forall|id: usize| !is_live(m, id),
    {
        let mut q = queue_new();
        queue_add(&mut q, 0);
        let m = EidManager { eid_max: 0, eid_q: q };
        proof {
            assert(free_ids(m) =~= seq![0usize]);
            assert(free_ids(m)[0] == 0usize);
            assert forall|id: usize| !is_live(m, id) by {
                if id <= max_issued(m) {
                    assert(free_ids(m)[0] == id);
                }
            }
        }
        m
    }

    /// Returns a fresh entity for `user`: the oldest pooled id when the pool
    /// is non-empty (FIFO reuse), otherwise a new monotonic maximum. The id
    /// returned is never one that is currently live.
    pub fn create(&mut self, user: &str) -> (e: Entity)
        requires
            eid_wf(*old(self)),
            free_ids(*old(self)).len() == 0 ==> max_issued(*old(self)) < usize::MAX,
        ensures
            eid_wf(*final(self)),
            e.component_bitmask == 0,
            e.owner@ == user@,
            free_ids(*old(self)).len() > 0 ==> {
                &&& e.id == free_ids(*old(self))[0]
                &&& free_ids(*final(self)) == free_ids(*old(self)).drop_first()
                &&& max_issued(*final(self)) == max_issued(*old(self))
            },
            free_ids(*old(self)).len() == 0 ==> {
                &&& e.id == max_issued(*old(self)) + 1
                &&& free_ids(*final(self)) == free_ids(*old(self))
                &&& max_issued(*final(self)) == max_issued(*old(self)) + 1
            },
            !is_live(*old(self), e.id),
            is_live(*final(self), e.id),
            forall|other: usize| other != e.id ==> is_live(*final(self), other) == is_live(
                *old(self),
                other,
            ),
    {
        let ghost pool = free_ids(*old(self));
        match queue_remove(&mut self.eid_q) {
            Some(eid) => {
                proof {
                    assert(pool.contains(eid)) by {
                        assert(pool[0] == eid);
                    }
                    lemma_no_dup_drop_first(pool);
                    assert forall|other: usize| other != eid implies is_live(*self, other)
                        == is_live(*old(self), other) by {
                        lemma_drop_first_contains(pool, other);
                    }
                }
                Entity { id: eid, component_bitmask: 0, owner: user.to_owned() }
            },
            None => {
                self.eid_max = self.eid_max + 1;
                Entity { id: self.eid_max, component_bitmask: 0, owner: user.to_owned() }
            },
        }
    }

    /// Returns a live entity's id to the back of the pool. Freeing an id that
    /// is not currently live is a programmer error and is ruled out here.
    pub fn free(&mut self, entity: &Entity)
        requires
            eid_wf(*old(self)),
            is_live(*old(self), entity.id),
        ensures
            eid_wf(*final(self)),
            free_ids(*final(self)) == free_ids(*old(self)).push(entity.id),
            max_issued(*final(self)) == max_issued(*old(self)),
            !is_live(*final(self), entity.id),
            forall|other: usize| other != entity.id ==> is_live(*final(self), other) == is_live(
                *old(self),
                other,
            ),
    {
        let ghost pool = free_ids(*old(self));
        queue_add(&mut self.eid_q, entity.id);
        proof {
            lemma_push_no_dup(pool, entity.id);
            lemma_push_contains(pool, entity.id, entity.id);
            assert forall|other: usize| other != entity.id implies is_live(*self, other)
                == is_live(*old(self), other) by {
                lemma_push_contains(pool, entity.id, other);
            }
            assert forall|i: int| 0 <= i < free_ids(*self).len() implies #[trigger] free_ids(
                *self,
            )[i] <= max_issued(*self) by {
                if i < pool.len() {
                    assert(pool[i] == free_ids(*self)[i]);
                }
            }
        }
    }
}

} // verus!
