//! Component storage grouped by composition.
//!
//! Entities with the same set of component types share a composition. For each
//! component type there is a column; a column holds one block per composition, and a
//! block holds the bytes of that type's component for each entity of the composition,
//! row by row. An entity is found through its id: the id gives its composition and row.
use vstd::prelude::*;

use std::collections::BTreeMap;

use crate::eid_manager::{GlorifiedHashMap, InternalEntity, created_from, creatable, issues, issued_at};
use crate::pending_entity::{PendingEntity, TypesSet, lists_components};
use crate::{GlobalEntityID, TypeIdNum};

verus! {

/// The bytes of one component value.
pub type ByteBlock = Vec<u8>;

/// One block per composition, each holding one component per row.
pub type Column = Vec<Vec<ByteBlock>>;

/// Number of a composition (a set of component types).
pub type CompositionID = usize;

/// Row of an entity within its composition.
pub type InternalIndex = usize;

/// Entities and their components.
#[derive(Debug)]
pub struct CompStorage {
    columns: BTreeMap<TypeIdNum, Column>,
    entities: GlorifiedHashMap,
    /// The component types of each composition, by composition number.
    compositions: Vec<TypesSet>,
}

/// What deleting an entity reports.
pub struct DeleteResult {}

/// `a` and `b` hold the same types.
pub open spec fn same_types(a: Seq<TypeIdNum>, b: Seq<TypeIdNum>) -> bool {
    a.to_set() == b.to_set()
}

/// Whether some composition of `s` has the types `ts`.
pub open spec fn has_composition(s: CompStorage, ts: Seq<TypeIdNum>) -> bool {
    exists|c: int| 0 <= c < s.comps().len() && same_types(#[trigger] s.comps()[c], ts)
}

/// `next` is `prev` after asking for the composition of the types `ts`, which was `r`: the
/// composition with those types where `prev` has one, else a new one numbered after the others.
pub open spec fn picked_composition(next: CompStorage, prev: CompStorage, ts: Seq<TypeIdNum>, r: int) -> bool {
    &&& 0 <= r < next.comps().len()
    &&& same_types(next.comps()[r], ts)
    &&& has_composition(prev, ts) ==> next.comps() == prev.comps()
    &&& !has_composition(prev, ts) ==> next.comps() == prev.comps().push(ts) && r == prev.comps().len()
}

/// `next` is `prev` after asking for the composition of the type set `types`, which was `c`:
/// the composition with those types where `prev` has one, else a new one numbered after the
/// others, listing the types in increasing order.
pub open spec fn picked_type_set(next: CompStorage, prev: CompStorage, types: Set<TypeIdNum>, c: int) -> bool {
    let found = exists|d: int| 0 <= d < prev.comps().len() && #[trigger] prev.comps()[d].to_set() == types;
    &&& 0 <= c < next.comps().len()
    &&& next.comps()[c].to_set() == types
    &&& found ==> next.comps() == prev.comps()
    &&& !found ==> {
        &&& next.comps().len() == prev.comps().len() + 1
        &&& next.comps().subrange(0, prev.comps().len() as int) == prev.comps()
        &&& c == prev.comps().len()
        &&& forall|i: int, j: int| 0 <= i < j < next.comps()[c].len() ==> next.comps()[c][i] < next.comps()[c][j]
    }
}

/// Whether `a` and `b` hold the same types.
fn types_match(a: &TypesSet, b: &TypesSet) -> (r: bool)
    ensures
        r == same_types(a@, b@),
{
    let mut i: usize = 0;
    while i < a.len()
        invariant
            i <= a@.len(),
            forall|j: int| 0 <= j < i ==> b@.contains(#[trigger] a@[j]),
        decreases a@.len() - i,
    {
        if !contains_type(b, a[i]) {
            proof {
                assert(a@.to_set().contains(a@[i as int]));
            }
            return false;
        }
        i = i + 1;
    }
    let mut j: usize = 0;
    while j < b.len()
        invariant
            j <= b@.len(),
            forall|k: int| 0 <= k < a@.len() ==> b@.contains(#[trigger] a@[k]),
            forall|k: int| 0 <= k < j ==> a@.contains(#[trigger] b@[k]),
        decreases b@.len() - j,
    {
        if !contains_type(a, b[j]) {
            proof {
                assert(b@.to_set().contains(b@[j as int]));
            }
            return false;
        }
        j = j + 1;
    }
    proof {
        assert forall|t: TypeIdNum| a@.to_set().contains(t) <==> b@.to_set().contains(t) by {
            if a@.contains(t) {
                let k = choose|k: int| 0 <= k < a@.len() && a@[k] == t;
                assert(b@.contains(a@[k]));
            }
            if b@.contains(t) {
                let k = choose|k: int| 0 <= k < b@.len() && b@[k] == t;
                assert(a@.contains(b@[k]));
            }
        }
        assert(a@.to_set() =~= b@.to_set());
    }
    true
}

/// Whether `list` holds `t`.
fn contains_type(list: &TypesSet, t: TypeIdNum) -> (r: bool)
    ensures
        r == list@.contains(t),
{
    let mut i: usize = 0;
    while i < list.len()
        invariant
            i <= list@.len(),
            forall|j: int| 0 <= j < i ==> list@[j] != t,
        decreases list@.len() - i,
    {
        if list[i] == t {
            return true;
        }
        i = i + 1;
    }
    false
}

/// Asking twice for the compositions of the same types gives the same composition, and the
/// second request adds none.
pub proof fn lemma_same_types_same_composition(
    s0: CompStorage,
    s1: CompStorage,
    s2: CompStorage,
    a: Seq<TypeIdNum>,
    b: Seq<TypeIdNum>,
    r1: int,
    r2: int,
)
    requires
        s2.wf(),
        picked_composition(s1, s0, a, r1),
        picked_composition(s2, s1, b, r2),
        same_types(a, b),
    ensures
        r1 == r2,
        s2.comps() == s1.comps(),
{
    assert(same_types(s1.comps()[r1], b));
    assert(has_composition(s1, b));
}

/// Asking for the compositions of two different sets of types gives two different compositions.
pub proof fn lemma_different_types_different_composition(
    s0: CompStorage,
    s1: CompStorage,
    s2: CompStorage,
    a: Seq<TypeIdNum>,
    b: Seq<TypeIdNum>,
    r1: int,
    r2: int,
)
    requires
        picked_composition(s1, s0, a, r1),
        picked_composition(s2, s1, b, r2),
        !same_types(a, b),
    ensures
        r1 != r2,
{
    if has_composition(s1, b) {
        assert(s2.comps() == s1.comps());
    } else {
        assert(s2.comps()[r1] == s1.comps()[r1]);
    }
}

/// In a well-formed storage, a set of types has at most one composition.
pub proof fn lemma_composition_unique(s: CompStorage, c1: int, c2: int)
    requires
        s.wf(),
        0 <= c1 < s.comps().len(),
        0 <= c2 < s.comps().len(),
        same_types(s.comps()[c1], s.comps()[c2]),
    ensures
        c1 == c2,
{
}

impl CompStorage {
    /// The component types of each composition.
    pub closed spec fn comps(&self) -> Seq<Seq<TypeIdNum>> {
        self.compositions@.map_values(|v: TypesSet| v@)
    }

    /// The entity registry.
    pub closed spec fn registry(&self) -> GlorifiedHashMap {
        self.entities
    }

    /// Number of blocks in the column of type `t`.
    pub closed spec fn col_len(&self, t: TypeIdNum) -> int {
        if self.columns@.contains_key(t) {
            self.columns@[t]@.len() as int
        } else {
            0
        }
    }

    /// The components of type `t` of composition `c`, row by row.
    pub closed spec fn block(&self, t: TypeIdNum, c: int) -> Seq<ByteBlock> {
        if self.columns@.contains_key(t) && 0 <= c < self.columns@[t]@.len() {
            self.columns@[t]@[c]@
        } else {
            Seq::empty()
        }
    }

    /// The bytes of the component of type `t` of the live entity `id`, if it has one.
    pub open spec fn comp_bytes(&self, id: GlobalEntityID, t: TypeIdNum) -> Option<Seq<u8>> {
        match self.registry().lookup(id) {
            Some(e) => if e.internal_index < self.block(t, e.composition_id as int).len() {
                Some(self.block(t, e.composition_id as int)[e.internal_index as int]@)
            } else {
                None
            },
            None => None,
        }
    }

    /// Number of entities of composition `c` (its first type's block length).
    pub open spec fn comp_size(&self, c: int) -> int {
        if self.comps()[c].len() > 0 {
            self.block(self.comps()[c][0], c).len() as int
        } else {
            0
        }
    }

    /// The storage's invariant: each composition lists distinct types, no two compositions
    /// have the same types, and all the blocks of
    /// a composition's types are equally long while other types' blocks for it are empty;
    /// no column has blocks past the last composition; and each live entity names a row
    /// present in its composition.
    pub open spec fn wf(&self) -> bool {
        &&& self.registry().wf()
        &&& forall|c: int| 0 <= c < self.comps().len() ==> #[trigger] self.comps()[c].no_duplicates()
        &&& forall|c1: int, c2: int|
            0 <= c1 < self.comps().len() && 0 <= c2 < self.comps().len() && c1 != c2 ==> !same_types(
                #[trigger] self.comps()[c1],
                #[trigger] self.comps()[c2],
            )
        &&& forall|c: int, t: TypeIdNum|
            0 <= c < self.comps().len() && #[trigger] self.comps()[c].contains(t) ==> self.block(
                t,
                c,
            ).len() == self.comp_size(c)
        &&& forall|c: int, t: TypeIdNum|
            0 <= c < self.comps().len() && !self.comps()[c].contains(t) ==> #[trigger] self.block(
                t,
                c,
            ).len() == 0
        &&& forall|t: TypeIdNum| #[trigger] self.col_len(t) <= self.comps().len()
        &&& forall|id: GlobalEntityID| #[trigger]
            self.registry().lookup(id) is Some ==> {
                let e = self.registry().lookup(id)->0;
                &&& e.composition_id < self.comps().len()
                &&& e.internal_index < self.comp_size(e.composition_id as int)
            }
    }

    /// No compositions, no components, no entities.
    pub fn new() -> (r: Self)
        ensures
            r.wf(),
            r.comps().len() == 0,
            forall|id: GlobalEntityID| #[trigger] r.registry().lookup(id) is None,
    {
        let r = CompStorage {
            columns: BTreeMap::new(),
            entities: GlorifiedHashMap::new(),
            compositions: Vec::new(),
        };
        proof {
            assert forall|t: TypeIdNum| #[trigger] r.col_len(t) <= r.comps().len() by {
                assert(!r.columns@.contains_key(t));
            }
        }
        r
    }

    /// The composition of the given types, made new (as the next number) where no
    /// composition has exactly these types.
    pub fn get_composition_id(&mut self, types_hash: &TypesSet) -> (r: CompositionID)
        requires
            old(self).wf(),
            types_hash@.no_duplicates(),
        ensures
            final(self).wf(),
            final(self).registry() == old(self).registry(),
            forall|t: TypeIdNum, c: int| #[trigger] final(self).block(t, c) == old(self).block(t, c),
            picked_composition(*final(self), *old(self), types_hash@, r as int),
    {
        let mut c: usize = 0;
        while c < self.compositions.len()
            invariant
                c <= self.compositions@.len(),
                *self == *old(self),
                self.wf(),
                types_hash@.no_duplicates(),
                self.comps().len() == self.compositions@.len(),
                forall|j: int| 0 <= j < c ==> !same_types(#[trigger] self.comps()[j], types_hash@),
            decreases self.compositions@.len() - c,
        {
            if types_match(&self.compositions[c], types_hash) {
                proof {
                    assert(same_types(old(self).comps()[c as int], types_hash@));
                }
                return c;
            }
            c = c + 1;
        }
        let new_composition_id = self.compositions.len();
        self.compositions.push(types_hash.clone());
        proof {
            assert(self.comps() =~= old(self).comps().push(types_hash@));
            assert forall|t: TypeIdNum, c: int| #[trigger] self.block(t, c) == old(self).block(t, c) by {}
            let n = new_composition_id as int;
            assert forall|t: TypeIdNum| #[trigger] self.col_len(t) <= self.comps().len() by {
                assert(old(self).col_len(t) <= old(self).comps().len());
            }
            assert forall|c: int, t: TypeIdNum|
                0 <= c < self.comps().len() && #[trigger] self.comps()[c].contains(t) implies self.block(
                t,
                c,
            ).len() == self.comp_size(c) by {
                if c == n {
                    assert(old(self).col_len(t) <= n);
                    assert(self.block(t, c).len() == 0);
                    let t0 = self.comps()[c][0];
                    assert(old(self).col_len(t0) <= n);
                } else {
                    assert(old(self).comps()[c] == self.comps()[c]);
                }
            }
            assert forall|c: int, t: TypeIdNum|
                0 <= c < self.comps().len() && !self.comps()[c].contains(t) implies #[trigger] self.block(
                t,
                c,
            ).len() == 0 by {
                if c == n {
                    assert(old(self).col_len(t) <= n);
                } else {
                    assert(old(self).comps()[c] == self.comps()[c]);
                }
            }
            assert forall|id: GlobalEntityID| #[trigger]
                self.registry().lookup(id) is Some implies ({
                let e = self.registry().lookup(id)->0;
                &&& e.composition_id < self.comps().len()
                &&& e.internal_index < self.comp_size(e.composition_id as int)
            }) by {
                let e = old(self).registry().lookup(id)->0;
                assert(old(self).comps()[e.composition_id as int] == self.comps()[e.composition_id as int]);
            }
            assert(self.comps()[n] == types_hash@);
        }
        new_composition_id
    }

    /// Whether another entity can be registered.
    pub fn has_room(&self) -> (r: bool)
        requires
            self.wf(),
        ensures
            r == self.registry().can_create(),
    {
        self.entities.has_room()
    }

    /// Whether `entity_id` names a live entity.
    pub fn is_live(&self, entity_id: GlobalEntityID) -> (r: bool)
        requires
            self.wf(),
        ensures
            r == self.registry().lookup(entity_id) is Some,
    {
        self.entities.get(entity_id).is_some()
    }

    /// Whether `n` entities in a row can be registered, and whether one of them would get the id `d`.
    pub fn plan_creations(&self, n: usize, d: GlobalEntityID) -> (r: (bool, bool))
        requires
            self.wf(),
        ensures
            r.0 == creatable(self.registry(), 0, n as int),
            r.1 == issues(self.registry(), 0, n as int, d),
    {
        self.entities.plan_creations(n, d)
    }

    /// The bytes of the component of type `type_id` of the live entity `entity_id`, if it has one.
    pub fn get_comp(&self, entity_id: GlobalEntityID, type_id: TypeIdNum) -> (r: Option<&ByteBlock>)
        requires
            self.wf(),
        ensures
            match r {
                Some(bytes) => self.comp_bytes(entity_id, type_id) == Some(bytes@),
                None => self.comp_bytes(entity_id, type_id) is None,
            },
    {
        let internal = match self.entities.get(entity_id) {
            Some(e) => e,
            None => {
                return None;
            },
        };
        let column = match self.columns.get(&type_id) {
            Some(col) => col,
            None => {
                return None;
            },
        };
        if internal.composition_id >= column.len() {
            return None;
        }
        let block = &column[internal.composition_id];
        if internal.internal_index >= block.len() {
            return None;
        }
        Some(&block[internal.internal_index])
    }

    /// Deleting is only possible for ids that name no live entity, and reports nothing.
    pub fn delete_entity(&mut self, entity_id: GlobalEntityID) -> (r: Option<DeleteResult>)
        requires
            old(self).wf(),
            old(self).registry().lookup(entity_id) is None,
        ensures
            r is None,
            *final(self) == *old(self),
    {
        match self.entities.get(entity_id) {
            Some(_) => None,
            None => None,
        }
    }

    /// Appends `bytes` to the block of type `type_id` for composition `composition_id`,
    /// making the column and the blocks up to that one where missing; returns its row.
    fn push_into_block(
        &mut self,
        type_id: TypeIdNum,
        composition_id: CompositionID,
        bytes: ByteBlock,
    ) -> (row: InternalIndex)
        ensures
            final(self).registry() == old(self).registry(),
            final(self).comps() == old(self).comps(),
            row == old(self).block(type_id, composition_id as int).len(),
            forall|t: TypeIdNum, c: int|
                #[trigger] final(self).block(t, c) == if t == type_id && c == composition_id {
                    old(self).block(t, c).push(bytes)
                } else {
                    old(self).block(t, c)
                },
            forall|t: TypeIdNum|
                #[trigger] final(self).col_len(t) == if t == type_id && old(self).col_len(t)
                    <= composition_id {
                    composition_id + 1
                } else {
                    old(self).col_len(t)
                },
    {
        let mut column: Column = match self.columns.remove(&type_id) {
            Some(col) => col,
            None => Vec::new(),
        };
        let ghost start = column@;
        while column.len() <= composition_id
            invariant
                start.len() <= column@.len(),
                column@.len() <= (if start.len() <= composition_id { composition_id + 1 } else { start.len() as int }),
                forall|j: int| 0 <= j < start.len() ==> #[trigger] column@[j] == start[j],
                forall|j: int| start.len() <= j < column@.len() ==> #[trigger] column@[j]@.len() == 0,
            decreases composition_id + 1 - column@.len(),
        {
            column.push(Vec::new());
        }
        let mut block: Vec<ByteBlock> = Vec::new();
        column.set_and_swap(composition_id, &mut block);
        let row = block.len();
        block.push(bytes);
        column.set_and_swap(composition_id, &mut block);
        self.columns.insert(type_id, column);
        proof {
            assert forall|t: TypeIdNum, c: int|
                #[trigger] self.block(t, c) == if t == type_id && c == composition_id {
                    old(self).block(t, c).push(bytes)
                } else {
                    old(self).block(t, c)
                } by {
                if t == type_id && 0 <= c < column@.len() && c != composition_id {
                    if c >= start.len() {
                        assert(self.block(t, c) =~= old(self).block(t, c));
                    }
                }
            }
        }
        row
    }

    /// Stores the entity's components in the composition of its component types, at a new
    /// row of that composition, and registers it under a new id; returns the id.
    pub fn create_entity(&mut self, pending_entity: PendingEntity) -> (r: GlobalEntityID)
        requires
            old(self).wf(),
            pending_entity@.dom().len() > 0,
            old(self).registry().can_create(),
        ensures
            final(self).wf(),
            old(self).registry().lookup(r) is None,
            final(self).registry().lookup(r) is Some,
            created_from(final(self).registry(), old(self).registry(), r),
            r == issued_at(old(self).registry(), 0, 0),
            forall|id: GlobalEntityID|
                id != r ==> #[trigger] final(self).registry().lookup(id) == old(self).registry().lookup(id),
            forall|t: TypeIdNum|
                #[trigger] final(self).comp_bytes(r, t) == if pending_entity@.contains_key(t) {
                    Some(pending_entity@[t])
                } else {
                    None
                },
            forall|id: GlobalEntityID, t: TypeIdNum|
                id != r ==> #[trigger] final(self).comp_bytes(id, t) == old(self).comp_bytes(id, t),
            ({
                let e = final(self).registry().lookup(r)->0;
                let c = e.composition_id as int;
                &&& picked_type_set(*final(self), *old(self), pending_entity@.dom(), c)
                &&& forall|t: TypeIdNum|
                    #[trigger] pending_entity@.contains_key(t) ==> {
                        &&& old(self).block(t, c).len() == e.internal_index
                        &&& final(self).block(t, c).len() == e.internal_index + 1
                        &&& final(self).block(t, c).subrange(0, e.internal_index as int) == old(self).block(t, c)
                        &&& final(self).block(t, c)[e.internal_index as int]@ == pending_entity@[t]
                    }
                &&& forall|t: TypeIdNum, d: int|
                    !(d == c && pending_entity@.contains_key(t)) ==> #[trigger] final(self).block(t, d)
                        == old(self).block(t, d)
            }),
    {
        let types = pending_entity.hash_types();
        let composition_id = self.get_composition_id(&types);
        let entries = pending_entity.iter();
        let ghost s0 = *self;
        let ghost c = composition_id as int;
        let ghost n = s0.comp_size(c);
        proof {
            // The composition's types are exactly the entity's component types.
            assert forall|t: TypeIdNum| s0.comps()[c].contains(t) <==> pending_entity@.contains_key(t) by {
                assert(s0.comps()[c].to_set().contains(t) == types@.to_set().contains(t));
            }
            assert forall|j: int| 0 <= j < entries@.len() implies s0.comps()[c].contains(#[trigger] entries@[j].0) by {
                assert(pending_entity@.contains_key(entries@[j].0));
            }
        }
        let mut internal_index: Option<InternalIndex> = None;
        let mut k: usize = 0;
        while k < entries.len()
            invariant
                k <= entries@.len(),
                lists_components(entries@, pending_entity@),
                forall|j: int| 0 <= j < entries@.len() ==> s0.comps()[c].contains(#[trigger] entries@[j].0),
                s0.wf(),
                0 <= c < s0.comps().len(),
                c == composition_id as int,
                n == s0.comp_size(c),
                self.registry() == s0.registry(),
                self.comps() == s0.comps(),
                k == 0 ==> internal_index is None,
                k > 0 ==> internal_index is Some && internal_index->0 == n,
                forall|j: int|
                    0 <= j < k ==> #[trigger] self.block(entries@[j].0, c).len() == n + 1
                        && self.block(entries@[j].0, c).subrange(0, n) == s0.block(entries@[j].0, c)
                        && self.block(entries@[j].0, c)[n]@ == entries@[j].1@,
                forall|t: TypeIdNum, d: int|
                    !(d == c && exists|j: int| 0 <= j < k && entries@[j].0 == t) ==> #[trigger] self.block(
                        t,
                        d,
                    ) == s0.block(t, d),
                forall|t: TypeIdNum| #[trigger] self.col_len(t) <= self.comps().len(),
            decreases entries@.len() - k,
        {
            let type_id = entries[k].0;
            let bytes = entries[k].1.clone();
            proof {
                assert(s0.comps()[c].contains(type_id));
                assert(!(exists|j: int| 0 <= j < k && entries@[j].0 == type_id)) by {
                    if exists|j: int| 0 <= j < k && entries@[j].0 == type_id {
                        let j = choose|j: int| 0 <= j < k && entries@[j].0 == type_id;
                        assert(entries@[j].0 != entries@[k as int].0);
                    }
                }
                assert(self.block(type_id, c) == s0.block(type_id, c));
                assert(s0.block(type_id, c).len() == s0.comp_size(c));
            }
            let new_internal_index = self.push_into_block(type_id, composition_id, bytes);
            if k == 0 {
                internal_index = Some(new_internal_index);
            }
            proof {
                assert(new_internal_index == s0.block(type_id, c).len());
                assert(s0.block(type_id, c).len() == n);
                assert(new_internal_index == n);
                assert forall|t: TypeIdNum, d: int|
                    !(d == c && exists|j: int| 0 <= j < k + 1 && entries@[j].0 == t) implies #[trigger] self.block(
                    t,
                    d,
                ) == s0.block(t, d) by {
                    if d == c && exists|j: int| 0 <= j < k && entries@[j].0 == t {
                        let j = choose|j: int| 0 <= j < k && entries@[j].0 == t;
                        assert(0 <= j < k + 1 && entries@[j].0 == t);
                    }
                }
                assert forall|j: int| 0 <= j < k + 1 implies #[trigger] self.block(entries@[j].0, c).len()
                    == n + 1 && self.block(entries@[j].0, c).subrange(0, n) == s0.block(entries@[j].0, c)
                    && self.block(entries@[j].0, c)[n]@ == entries@[j].1@ by {
                    if j < k {
                        assert(entries@[j].0 != type_id);
                    } else {
                        assert(bytes@ =~= entries@[k as int].1@);
                        assert(self.block(type_id, c).subrange(0, n) =~= s0.block(type_id, c));
                    }
                }
                assert forall|t: TypeIdNum| #[trigger] self.col_len(t) <= self.comps().len() by {}
            }
            k = k + 1;
        }
        let row = match internal_index {
            Some(i) => i,
            None => 0,
        };
        let ghost s1 = *self;
        proof {
            assert(entries@.len() > 0) by {
                let t = pending_entity@.dom().choose();
                assert(pending_entity@.contains_key(t));
            }
            // Every type of the composition got exactly one new row: its component.
            assert forall|t: TypeIdNum| #[trigger] s0.comps()[c].contains(t) implies s1.block(t, c).len()
                == n + 1 && s1.block(t, c).subrange(0, n) == s0.block(t, c) && s1.block(t, c)[n]@
                == pending_entity@[t] by {
                assert(pending_entity@.contains_key(t));
                let j = choose|j: int| 0 <= j < entries@.len() && entries@[j].0 == t;
                assert(s1.block(entries@[j].0, c).len() == n + 1);
            }
            assert forall|t: TypeIdNum, d: int|
                !(d == c && #[trigger] s0.comps()[c].contains(t)) implies #[trigger] s1.block(t, d)
                == s0.block(t, d) by {
                if d == c && exists|j: int| 0 <= j < k && entries@[j].0 == t {
                    let j = choose|j: int| 0 <= j < k && entries@[j].0 == t;
                    assert(s0.comps()[c].contains(entries@[j].0));
                }
            }
        }
        let new_id = self.entities.create_entity(InternalEntity { composition_id, internal_index: row });
        proof {
            let tp = pending_entity@.dom().choose();
            assert(pending_entity@.contains_key(tp));
            assert(s0.comps()[c].contains(tp));
            let t0 = s0.comps()[c][0];
            assert(s0.comps()[c].contains(t0));
            assert(self.comp_size(c) == n + 1);
            assert forall|d: int| 0 <= d < self.comps().len() && d != c implies #[trigger] self.comp_size(d)
                == s0.comp_size(d) by {
                if self.comps()[d].len() > 0 {
                    let td = self.comps()[d][0];
                    assert(s1.block(td, d) == s0.block(td, d));
                }
            }
            assert forall|d: int, t: TypeIdNum|
                0 <= d < self.comps().len() && #[trigger] self.comps()[d].contains(t) implies self.block(
                t,
                d,
            ).len() == self.comp_size(d) by {
                if d != c {
                    assert(s1.block(t, d) == s0.block(t, d));
                }
            }
            assert forall|d: int, t: TypeIdNum|
                0 <= d < self.comps().len() && !self.comps()[d].contains(t) implies #[trigger] self.block(
                t,
                d,
            ).len() == 0 by {
                assert(s1.block(t, d) == s0.block(t, d));
            }
            assert forall|id: GlobalEntityID| #[trigger]
                self.registry().lookup(id) is Some implies ({
                let e = self.registry().lookup(id)->0;
                &&& e.composition_id < self.comps().len()
                &&& e.internal_index < self.comp_size(e.composition_id as int)
            }) by {
                if id != new_id {
                    assert(s0.registry().lookup(id) is Some);
                    let e = s0.registry().lookup(id)->0;
                    if e.composition_id != c {
                        assert(self.comp_size(e.composition_id as int) == s0.comp_size(e.composition_id as int));
                    }
                }
            }
            assert forall|t: TypeIdNum| #[trigger] self.comp_bytes(new_id, t) == if pending_entity@.contains_key(t) {
                Some(pending_entity@[t])
            } else {
                None
            } by {
                assert(self.registry().lookup(new_id) == Some(
                    InternalEntity { composition_id, internal_index: row },
                ));
                assert(row == n);
                assert(self.block(t, c) == s1.block(t, c));
                if pending_entity@.contains_key(t) {
                    assert(s0.comps()[c].contains(t));
                } else {
                    assert(!s0.comps()[c].contains(t));
                    assert(s1.block(t, c) == s0.block(t, c));
                }
            }
            assert(self.registry().wf());
            assert forall|d: int| 0 <= d < self.comps().len() implies #[trigger] self.comps()[d].no_duplicates() by {
                assert(self.comps()[d] == s0.comps()[d]);
            }
            assert forall|t: TypeIdNum| #[trigger] self.col_len(t) <= self.comps().len() by {
                assert(self.col_len(t) == s1.col_len(t));
            }
            assert(self.wf());
            assert forall|id: GlobalEntityID, t: TypeIdNum|
                id != new_id implies #[trigger] self.comp_bytes(id, t) == old(self).comp_bytes(id, t) by {
                assert(self.registry().lookup(id) == old(self).registry().lookup(id));
                if old(self).registry().lookup(id) is Some {
                    let e = old(self).registry().lookup(id)->0;
                    let d = e.composition_id as int;
                    assert(old(self).block(t, d) == s0.block(t, d));
                    if d == c && s0.comps()[c].contains(t) {
                        assert(s0.block(t, d).len() == n);
                        assert(self.block(t, d)[e.internal_index as int] == s0.block(t, d)[e.internal_index as int]);
                    } else {
                        assert(self.block(t, d) == s1.block(t, d));
                        assert(s1.block(t, d) == s0.block(t, d));
                    }
                }
            }
            // The composition and row the entity got, and the blocks that grew.
            assert(self.registry().lookup(new_id)->0 == InternalEntity { composition_id, internal_index: row });
            assert(self.comps() == s0.comps());
            assert forall|t: TypeIdNum| #[trigger] pending_entity@.contains_key(t) implies {
                &&& old(self).block(t, c).len() == row
                &&& self.block(t, c).len() == row + 1
                &&& self.block(t, c).subrange(0, row as int) == old(self).block(t, c)
                &&& self.block(t, c)[row as int]@ == pending_entity@[t]
            } by {
                assert(s0.comps()[c].contains(t));
                assert(self.block(t, c) == s1.block(t, c));
                assert(old(self).block(t, c) == s0.block(t, c));
            }
            assert forall|t: TypeIdNum, d: int|
                !(d == c && pending_entity@.contains_key(t)) implies #[trigger] self.block(t, d) == old(
                    self,
                ).block(t, d) by {
                assert(self.block(t, d) == s1.block(t, d));
                if d == c {
                    assert(!s0.comps()[c].contains(t));
                }
                assert(old(self).block(t, d) == s0.block(t, d));
            }
            assert(types@.to_set() == pending_entity@.dom());
            let dom = pending_entity@.dom();
            assert(has_composition(*old(self), types@) == (exists|d: int|
                0 <= d < old(self).comps().len() && #[trigger] old(self).comps()[d].to_set() == dom)) by {
                if has_composition(*old(self), types@) {
                    let d = choose|d: int| 0 <= d < old(self).comps().len() && same_types(#[trigger] old(self).comps()[d], types@);
                    assert(old(self).comps()[d].to_set() == dom);
                }
                if exists|d: int| 0 <= d < old(self).comps().len() && #[trigger] old(self).comps()[d].to_set() == dom {
                    let d = choose|d: int| 0 <= d < old(self).comps().len() && #[trigger] old(self).comps()[d].to_set() == dom;
                    assert(same_types(old(self).comps()[d], types@));
                }
            }
            if !has_composition(*old(self), types@) {
                assert(self.comps() =~= old(self).comps().push(types@));
                assert(self.comps().subrange(0, old(self).comps().len() as int) =~= old(self).comps());
                assert(self.comps()[c] == types@);
            }
        }
        new_id
    }
}

} // verus!
