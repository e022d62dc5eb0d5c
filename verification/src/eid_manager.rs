//! Generational entity ids over a fixed number of slots.
//!
//! Slot `i` hands out the ids `i + MAX_ENTITIES`, `i + 2 * MAX_ENTITIES`, ... in turn, so an
//! id names its slot (`id % MAX_ENTITIES`) and, once its entity is deleted, never names a
//! live entity again.
use vstd::prelude::*;

use crate::GlobalEntityID;

verus! {

/// The number of entity slots.
pub const MAX_ENTITIES: usize = 2;

/// Where an entity's components are: its composition and its row within that composition.
#[derive(Clone, Copy, Debug, PartialEq, Eq)]
pub struct InternalEntity {
    pub composition_id: usize,
    pub internal_index: usize,
}

/// Maps live entity ids to their internal location.
#[derive(Clone, Debug)]
pub struct GlorifiedHashMap {
    alive: Vec<bool>,
    entity_ids: Vec<GlobalEntityID>,
    internal_details: Vec<InternalEntity>,
}

impl GlorifiedHashMap {
    /// Every slot holds its own number of lists, and each slot's id names that slot.
    pub closed spec fn wf(&self) -> bool {
        &&& self.alive@.len() == MAX_ENTITIES
        &&& self.entity_ids@.len() == MAX_ENTITIES
        &&& self.internal_details@.len() == MAX_ENTITIES
        &&& forall|i: int| 0 <= i < MAX_ENTITIES ==> #[trigger] self.entity_ids@[i] % MAX_ENTITIES == i
    }

    /// The id slot `i` hands out or last handed out.
    pub closed spec fn slot_id(&self, i: int) -> GlobalEntityID {
        self.entity_ids@[i]
    }

    /// Whether slot `i` holds a live entity.
    pub closed spec fn slot_alive(&self, i: int) -> bool {
        self.alive@[i]
    }

    /// The live entity named by `id`, if any.
    pub closed spec fn lookup(&self, id: GlobalEntityID) -> Option<InternalEntity> {
        let i = id % MAX_ENTITIES;
        if self.alive@[i as int] && self.entity_ids@[i as int] == id {
            Some(self.internal_details@[i as int])
        } else {
            None
        }
    }

    /// Slot `i` is the first free slot.
    pub open spec fn first_free(&self, i: int) -> bool {
        &&& 0 <= i < MAX_ENTITIES
        &&& !self.slot_alive(i)
        &&& forall|j: int| 0 <= j < i ==> #[trigger] self.slot_alive(j)
    }

    /// There is a free slot, and the first one can hand out its next id.
    pub open spec fn can_create(&self) -> bool {
        exists|i: int| #[trigger] self.first_free(i) && self.slot_id(i) + MAX_ENTITIES <= usize::MAX
    }

    /// No live entities; slot `i` will first hand out `i + MAX_ENTITIES`.
    pub fn new() -> (r: Self)
        ensures
            r.wf(),
            forall|i: int| 0 <= i < MAX_ENTITIES ==> !#[trigger] r.slot_alive(i) && r.slot_id(i) == i,
            forall|id: GlobalEntityID| #[trigger] r.lookup(id) is None,
            r.can_create(),
    {
        let mut alive: Vec<bool> = Vec::new();
        let mut entity_ids: Vec<GlobalEntityID> = Vec::new();
        let mut internal_details: Vec<InternalEntity> = Vec::new();
        let mut i: usize = 0;
        while i < MAX_ENTITIES
            invariant
                i <= MAX_ENTITIES,
                alive@.len() == i,
                entity_ids@.len() == i,
                internal_details@.len() == i,
                forall|j: int| 0 <= j < i ==> !#[trigger] alive@[j],
                forall|j: int| 0 <= j < i ==> #[trigger] entity_ids@[j] == j,
            decreases MAX_ENTITIES - i,
        {
            alive.push(false);
            entity_ids.push(i);
            internal_details.push(InternalEntity { composition_id: 0, internal_index: 0 });
            i = i + 1;
        }
        proof {
            assert forall|j: int| 0 <= j < MAX_ENTITIES implies #[trigger] entity_ids@[j]
                % MAX_ENTITIES == j by {
                assert(entity_ids@[j] == j);
            }
        }
        let r = GlorifiedHashMap { alive, entity_ids, internal_details };
        proof {
            assert(r.first_free(0));
        }
        r
    }

    /// Whether an entity can be created: there is a free slot, and the first one can hand
    /// out its next id.
    pub fn has_room(&self) -> (r: bool)
        requires
            self.wf(),
        ensures
            r == self.can_create(),
    {
        let mut index: usize = 0;
        while index < MAX_ENTITIES
            invariant
                self.wf(),
                index <= MAX_ENTITIES,
                forall|j: int| 0 <= j < index ==> #[trigger] self.alive@[j],
            decreases MAX_ENTITIES - index,
        {
            if !self.alive[index] {
                let fits = self.entity_ids[index] <= usize::MAX - MAX_ENTITIES;
                proof {
                    assert(self.first_free(index as int));
                    if !fits {
                        assert forall|i: int| #[trigger] self.first_free(i) implies self.slot_id(i)
                            + MAX_ENTITIES > usize::MAX by {
                            if i < index {
                                assert(self.alive@[i]);
                            }
                            if i > index {
                                assert(self.slot_alive(index as int));
                            }
                        }
                    }
                }
                return fits;
            }
            index = index + 1;
        }
        proof {
            assert forall|i: int| #[trigger] self.first_free(i) implies false by {
                assert(self.alive@[i]);
            }
        }
        false
    }

    /// Puts the entity in the first free slot and returns the slot's next id.
    pub fn create_entity(&mut self, internal_entity: InternalEntity) -> (new_id: GlobalEntityID)
        requires
            old(self).wf(),
            old(self).can_create(),
        ensures
            final(self).wf(),
            created_from(*final(self), *old(self), new_id),
            new_id == issued_at(*old(self), 0, 0),
            final(self).lookup(new_id) == Some(internal_entity),
            old(self).lookup(new_id) is None,
            forall|id: GlobalEntityID|
                id != new_id ==> #[trigger] final(self).lookup(id) == old(self).lookup(id),
    {
        let mut index: usize = 0;
        while index < MAX_ENTITIES
            invariant
                self.wf(),
                *self == *old(self),
                old(self).can_create(),
                index <= MAX_ENTITIES,
                forall|j: int| 0 <= j < index ==> #[trigger] self.alive@[j],
            decreases MAX_ENTITIES - index,
        {
            if !self.alive[index] {
                proof {
                    assert(self.first_free(index as int));
                    let i = choose|i: int|
                        #[trigger] old(self).first_free(i) && old(self).slot_id(i) + MAX_ENTITIES
                            <= usize::MAX;
                    assert(i == index as int) by {
                        if i < index {
                            assert(self.alive@[i]);
                        }
                        if i > index {
                            assert(self.slot_alive(index as int));
                        }
                    }
                }
                let new_id = self.entity_ids[index] + MAX_ENTITIES;
                self.alive.set(index, true);
                self.entity_ids.set(index, new_id);
                self.internal_details.set(index, internal_entity);
                proof {
                    assert(new_id % MAX_ENTITIES == index) by {
                        assert(old(self).entity_ids@[index as int] % MAX_ENTITIES == index);
                    }
                    assert(self.entity_ids@[index as int] % MAX_ENTITIES == index);
                    assert forall|id: GlobalEntityID|
                        id != new_id implies #[trigger] self.lookup(id) == old(self).lookup(id) by {
                        if id % MAX_ENTITIES == index {
                            assert(!old(self).alive@[index as int]);
                        }
                    }
                    assert(old(self).first_free(index as int));
                    assert(created_from(*self, *old(self), new_id));
                    lemma_issued_step(*self, *old(self), new_id, 0);
                }
                return new_id;
            }
            index = index + 1;
        }
        proof {
            let i = choose|i: int|
                #[trigger] old(self).first_free(i) && old(self).slot_id(i) + MAX_ENTITIES <= usize::MAX;
            assert(self.alive@[i]);
        }
        0
    }

    /// Marks the entity named by `query_id` dead, if it is live; always returns `None`.
    pub fn delete(&mut self, query_id: GlobalEntityID) -> (r: Option<&InternalEntity>)
        requires
            old(self).wf(),
        ensures
            final(self).wf(),
            r is None,
            final(self).lookup(query_id) is None,
            forall|id: GlobalEntityID|
                id != query_id ==> #[trigger] final(self).lookup(id) == old(self).lookup(id),
            deleted_from(*final(self), *old(self), query_id),
    {
        let index = query_id % MAX_ENTITIES;
        if self.alive[index] {
            if self.entity_ids[index] == query_id {
                self.alive.set(index, false);
            }
        }
        proof {
            assert forall|id: GlobalEntityID|
                id != query_id implies #[trigger] self.lookup(id) == old(self).lookup(id) by {
                if id % MAX_ENTITIES == index && old(self).alive@[index as int]
                    && old(self).entity_ids@[index as int] == query_id {
                    assert(self.entity_ids@[index as int] != id);
                }
            }
        }
        None
    }

    /// Whether `n` creations in a row can all be made, and whether one of them would hand out `d`.
    pub fn plan_creations(&self, n: usize, d: GlobalEntityID) -> (r: (bool, bool))
        requires
            self.wf(),
        ensures
            r.0 == creatable(*self, 0, n as int),
            r.1 == issues(*self, 0, n as int, d),
    {
        let mut fits = true;
        let mut hits = false;
        let mut left: usize = n;
        let mut i: usize = 0;
        while i < MAX_ENTITIES
            invariant
                self.wf(),
                i <= MAX_ENTITIES,
                left <= n,
                creatable(*self, 0, n as int) == (fits && creatable(*self, i as int, left as int)),
                issues(*self, 0, n as int, d) == (hits || issues(*self, i as int, left as int, d)),
            decreases MAX_ENTITIES - i,
        {
            if left > 0 && !self.alive[i] {
                let id = self.entity_ids[i];
                if id > usize::MAX - MAX_ENTITIES {
                    fits = false;
                } else if id + MAX_ENTITIES == d {
                    hits = true;
                }
                left = left - 1;
            }
            i = i + 1;
        }
        if left > 0 {
            fits = false;
        }
        (fits, hits)
    }

    /// The internal location of the live entity named by `query_id`, if any.
    pub fn get(&self, query_id: GlobalEntityID) -> (r: Option<&InternalEntity>)
        requires
            self.wf(),
        ensures
            r == match self.lookup(query_id) {
                Some(e) => Some(&e),
                None => None,
            },
    {
        let index = query_id % MAX_ENTITIES;
        if self.alive[index] {
            if self.entity_ids[index] == query_id {
                return Some(&self.internal_details[index]);
            }
        }
        None
    }
}

/// Whether the next `n` creations, looking at slots from `i` on, hand out the id `d`.
pub open spec fn issues(reg: GlorifiedHashMap, i: int, n: int, d: GlobalEntityID) -> bool
    decreases MAX_ENTITIES - i,
{
    if n <= 0 || i >= MAX_ENTITIES || i < 0 {
        false
    } else if reg.slot_alive(i) {
        issues(reg, i + 1, n, d)
    } else {
        d == reg.slot_id(i) + MAX_ENTITIES || issues(reg, i + 1, n - 1, d)
    }
}

/// The ids that the next `n` creations hand out, in order.
pub open spec fn next_ids(reg: GlorifiedHashMap, n: nat) -> Seq<GlobalEntityID> {
    Seq::new(n, |i: int| issued_at(reg, 0, i as nat) as GlobalEntityID)
}

/// The id that the creation `k` places after the next one hands out, looking at slots from
/// `i` on: the id after the one last handed out by the `k`-th free slot from `i`.
pub open spec fn issued_at(reg: GlorifiedHashMap, i: int, k: nat) -> int
    decreases MAX_ENTITIES - i,
{
    if i >= MAX_ENTITIES || i < 0 {
        0
    } else if reg.slot_alive(i) {
        issued_at(reg, i + 1, k)
    } else if k == 0 {
        reg.slot_id(i) + MAX_ENTITIES
    } else {
        issued_at(reg, i + 1, (k - 1) as nat)
    }
}

proof fn lemma_issued_skip_alive(reg: GlorifiedHashMap, i: int, f: int, k: nat)
    requires
        0 <= i <= f,
        reg.first_free(f),
    ensures
        issued_at(reg, i, k) == issued_at(reg, f, k),
    decreases f - i,
{
    if i < f {
        assert(reg.slot_alive(i));
        lemma_issued_skip_alive(reg, i + 1, f, k);
    }
}

proof fn lemma_issued_same_tail(a: GlorifiedHashMap, b: GlorifiedHashMap, i: int, k: nat)
    requires
        0 <= i,
        forall|j: int|
            i <= j < MAX_ENTITIES ==> #[trigger] a.slot_alive(j) == b.slot_alive(j) && a.slot_id(j)
                == b.slot_id(j),
    ensures
        issued_at(a, i, k) == issued_at(b, i, k),
    decreases MAX_ENTITIES - i,
{
    if i < MAX_ENTITIES {
        lemma_issued_same_tail(a, b, i + 1, k);
        if k > 0 {
            lemma_issued_same_tail(a, b, i + 1, (k - 1) as nat);
        }
    }
}

proof fn lemma_issued_alive_prefix(reg: GlorifiedHashMap, i: int, m: int, k: nat)
    requires
        0 <= i <= m <= MAX_ENTITIES,
        forall|j: int| 0 <= j < m ==> #[trigger] reg.slot_alive(j),
    ensures
        issued_at(reg, i, k) == issued_at(reg, m, k),
    decreases m - i,
{
    if i < m {
        lemma_issued_alive_prefix(reg, i + 1, m, k);
    }
}

/// A creation hands out the id of the next creation, and each later creation moves up by one.
pub proof fn lemma_issued_step(next: GlorifiedHashMap, prev: GlorifiedHashMap, new_id: GlobalEntityID, k: nat)
    requires
        created_from(next, prev, new_id),
    ensures
        issued_at(prev, 0, 0) == new_id,
        issued_at(prev, 0, k + 1) == issued_at(next, 0, k),
{
    let f = choose|i: int|
        #[trigger] prev.first_free(i) && new_id == prev.slot_id(i) + MAX_ENTITIES && (forall|j: int|
            0 <= j < MAX_ENTITIES ==> #[trigger] next.slot_alive(j) == (j == i || prev.slot_alive(j))
                && next.slot_id(j) == (if j == i {
                new_id
            } else {
                prev.slot_id(j)
            }));
    lemma_issued_skip_alive(prev, 0, f, 0);
    lemma_issued_skip_alive(prev, 0, f, k + 1);
    assert(issued_at(prev, f, k + 1) == issued_at(prev, f + 1, k));
    lemma_issued_same_tail(next, prev, f + 1, k);
    assert forall|j: int| 0 <= j < f + 1 implies #[trigger] next.slot_alive(j) by {
        assert(next.slot_alive(j) == (j == f || prev.slot_alive(j)));
    }
    lemma_issued_alive_prefix(next, 0, f + 1, k);
}

/// Whether the next `n` creations, looking at slots from `i` on, all find a slot whose
/// next id fits.
pub open spec fn creatable(reg: GlorifiedHashMap, i: int, n: int) -> bool
    decreases MAX_ENTITIES - i,
{
    if n <= 0 {
        true
    } else if i >= MAX_ENTITIES || i < 0 {
        false
    } else if reg.slot_alive(i) {
        creatable(reg, i + 1, n)
    } else {
        reg.slot_id(i) + MAX_ENTITIES <= usize::MAX && creatable(reg, i + 1, n - 1)
    }
}

/// `next` is `prev` after a creation that handed out `new_id` from its first free slot.
pub open spec fn created_from(next: GlorifiedHashMap, prev: GlorifiedHashMap, new_id: GlobalEntityID) -> bool {
    exists|i: int|
        #[trigger] prev.first_free(i) && new_id == prev.slot_id(i) + MAX_ENTITIES && (forall|j: int|
            0 <= j < MAX_ENTITIES ==> #[trigger] next.slot_alive(j) == (j == i || prev.slot_alive(j))
                && next.slot_id(j) == (if j == i {
                new_id
            } else {
                prev.slot_id(j)
            }))
}

/// `next` is `prev` after deleting `query_id`: the slot the id names is freed if it held
/// that id, and no slot's id changes.
pub open spec fn deleted_from(next: GlorifiedHashMap, prev: GlorifiedHashMap, query_id: GlobalEntityID) -> bool {
    forall|j: int|
        0 <= j < MAX_ENTITIES ==> #[trigger] next.slot_id(j) == prev.slot_id(j) && next.slot_alive(j)
            == (prev.slot_alive(j) && !(j == query_id % MAX_ENTITIES && prev.slot_id(j) == query_id))
}

/// `id` was handed out by its slot and names no live entity: its slot has moved on past
/// it, or holds it dead.
pub open spec fn retired(reg: GlorifiedHashMap, id: GlobalEntityID) -> bool {
    let i = (id % MAX_ENTITIES) as int;
    &&& id <= reg.slot_id(i)
    &&& !(reg.slot_alive(i) && reg.slot_id(i) == id)
}

/// In a well-formed registry, the id of slot `i` names slot `i`: it is `i` modulo `MAX_ENTITIES`;
/// and a live id's slot is alive and holds that id.
pub proof fn lemma_slot_id_names_slot(reg: GlorifiedHashMap, i: int, id: GlobalEntityID)
    requires
        reg.wf(),
        0 <= i < MAX_ENTITIES,
    ensures
        reg.slot_id(i) % MAX_ENTITIES == i,
        reg.lookup(id) is Some ==> reg.slot_alive((id % MAX_ENTITIES) as int) && reg.slot_id(
            (id % MAX_ENTITIES) as int,
        ) == id,
{
}

/// A retired id names no live entity.
pub proof fn lemma_retired_not_live(reg: GlorifiedHashMap, id: GlobalEntityID)
    requires
        reg.wf(),
        retired(reg, id),
    ensures
        reg.lookup(id) is None,
{
}

/// Deleting a live entity retires its id.
pub proof fn lemma_delete_retires(next: GlorifiedHashMap, prev: GlorifiedHashMap, id: GlobalEntityID)
    requires
        prev.wf(),
        prev.lookup(id) is Some,
        deleted_from(next, prev, id),
    ensures
        retired(next, id),
{
    let i = (id % MAX_ENTITIES) as int;
    assert(next.slot_id(i) == prev.slot_id(i));
}

/// A retired id stays retired through a deletion.
pub proof fn lemma_delete_keeps_retired(
    next: GlorifiedHashMap,
    prev: GlorifiedHashMap,
    query_id: GlobalEntityID,
    id: GlobalEntityID,
)
    requires
        retired(prev, id),
        deleted_from(next, prev, query_id),
    ensures
        retired(next, id),
{
    let i = (id % MAX_ENTITIES) as int;
    assert(next.slot_id(i) == prev.slot_id(i));
}

/// A retired id stays retired through a creation, and is not the id the creation hands out:
/// once deleted, an id never names a live entity again.
#[verifier::spinoff_prover]
pub proof fn lemma_create_keeps_retired(
    next: GlorifiedHashMap,
    prev: GlorifiedHashMap,
    new_id: GlobalEntityID,
    id: GlobalEntityID,
)
    requires
        prev.wf(),
        retired(prev, id),
        created_from(next, prev, new_id),
    ensures
        retired(next, id),
        id != new_id,
{
    let f = choose|i: int|
        #[trigger] prev.first_free(i) && new_id == prev.slot_id(i) + MAX_ENTITIES && (forall|j: int|
            0 <= j < MAX_ENTITIES ==> #[trigger] next.slot_alive(j) == (j == i || prev.slot_alive(j))
                && next.slot_id(j) == (if j == i {
                new_id
            } else {
                prev.slot_id(j)
            }));
    assert(prev.first_free(f));
    let i = (id % MAX_ENTITIES) as int;
    assert(0 <= i < MAX_ENTITIES);
    assert(next.slot_alive(i) == (i == f || prev.slot_alive(i)) && next.slot_id(i) == (if i == f {
        new_id
    } else {
        prev.slot_id(i)
    }));
    assert(prev.entity_ids@[f] % MAX_ENTITIES == f);
    assert(new_id % MAX_ENTITIES == f);
}

/// Slots from `i` on that are alive before the first free slot `f` change nothing.
proof fn lemma_skip_alive(reg: GlorifiedHashMap, i: int, f: int, n: int, d: GlobalEntityID)
    requires
        0 <= i <= f,
        reg.first_free(f),
    ensures
        issues(reg, i, n, d) == issues(reg, f, n, d),
        creatable(reg, i, n) == creatable(reg, f, n),
    decreases f - i,
{
    if i < f {
        assert(reg.slot_alive(i));
        lemma_skip_alive(reg, i + 1, f, n, d);
    }
}

/// Two registries that agree on the slots from `i` on issue and fit alike from there.
proof fn lemma_same_tail(a: GlorifiedHashMap, b: GlorifiedHashMap, i: int, n: int, d: GlobalEntityID)
    requires
        0 <= i,
        forall|j: int|
            i <= j < MAX_ENTITIES ==> #[trigger] a.slot_alive(j) == b.slot_alive(j) && a.slot_id(j)
                == b.slot_id(j),
    ensures
        issues(a, i, n, d) == issues(b, i, n, d),
        creatable(a, i, n) == creatable(b, i, n),
    decreases MAX_ENTITIES - i,
{
    if i < MAX_ENTITIES {
        lemma_same_tail(a, b, i + 1, n, d);
        lemma_same_tail(a, b, i + 1, n - 1, d);
    }
}

/// A creation hands out the first of the next `n` ids, and the other `n - 1` come after it.
pub proof fn lemma_create_step(
    next: GlorifiedHashMap,
    prev: GlorifiedHashMap,
    new_id: GlobalEntityID,
    n: int,
    d: GlobalEntityID,
)
    requires
        n > 0,
        created_from(next, prev, new_id),
    ensures
        issues(prev, 0, n, d) == (d == new_id || issues(next, 0, n - 1, d)),
        creatable(prev, 0, n) ==> creatable(next, 0, n - 1),
{
    let f = choose|i: int|
        #[trigger] prev.first_free(i) && new_id == prev.slot_id(i) + MAX_ENTITIES && (forall|j: int|
            0 <= j < MAX_ENTITIES ==> #[trigger] next.slot_alive(j) == (j == i || prev.slot_alive(j))
                && next.slot_id(j) == (if j == i {
                new_id
            } else {
                prev.slot_id(j)
            }));
    lemma_skip_alive(prev, 0, f, n, d);
    lemma_same_tail(next, prev, f + 1, n - 1, d);
    // In `next`, the slots up to and including `f` are all alive.
    lemma_alive_prefix(next, 0, f + 1, n - 1, d);
}

/// Slots from `i` up to `k` that are alive change nothing.
proof fn lemma_alive_prefix(reg: GlorifiedHashMap, i: int, k: int, n: int, d: GlobalEntityID)
    requires
        0 <= i <= k,
        forall|j: int| 0 <= j < k ==> #[trigger] reg.slot_alive(j),
    ensures
        k <= MAX_ENTITIES ==> issues(reg, i, n, d) == issues(reg, k, n, d),
        k <= MAX_ENTITIES ==> creatable(reg, i, n) == creatable(reg, k, n),
    decreases k - i,
{
    if i < k {
        lemma_alive_prefix(reg, i + 1, k, n, d);
    }
}

/// Where the next creation fits, it can be made.
pub proof fn lemma_creatable_can_create(reg: GlorifiedHashMap, n: int)
    requires
        n > 0,
        creatable(reg, 0, n),
    ensures
        reg.can_create(),
{
    lemma_first_free_exists(reg, 0, n);
}

proof fn lemma_first_free_exists(reg: GlorifiedHashMap, i: int, n: int)
    requires
        n > 0,
        0 <= i,
        creatable(reg, i, n),
        forall|j: int| 0 <= j < i ==> #[trigger] reg.slot_alive(j),
    ensures
        reg.can_create(),
    decreases MAX_ENTITIES - i,
{
    if reg.slot_alive(i) {
        lemma_first_free_exists(reg, i + 1, n);
    } else {
        assert(reg.first_free(i));
    }
}

} // verus!
