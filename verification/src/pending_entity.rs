//! An entity under construction: its components, each kept as the bytes of its value
//! under the number of its type.
use vstd::prelude::*;

use std::collections::BTreeMap;

use crate::TypeIdNum;

verus! {

/// The component types of an entity, each once.
pub type TypesSet = Vec<TypeIdNum>;

/// The components an entity will be created with.
#[derive(Clone, Debug)]
pub struct PendingEntity {
    data: BTreeMap<TypeIdNum, Vec<u8>>,
}

impl View for PendingEntity {
    /// The bytes of each component, by type.
    type V = Map<TypeIdNum, Seq<u8>>;

    closed spec fn view(&self) -> Map<TypeIdNum, Seq<u8>> {
        self.data@.map_values(|v: Vec<u8>| v@)
    }
}

/// `entries` lists every component of `m` once.
pub open spec fn lists_components(entries: Seq<(TypeIdNum, Vec<u8>)>, m: Map<TypeIdNum, Seq<u8>>) -> bool {
    &&& entries.len() == m.dom().len()
    &&& forall|i: int, j: int| 0 <= i < j < entries.len() ==> entries[i].0 != entries[j].0
    &&& forall|i: int|
        0 <= i < entries.len() ==> #[trigger] m.contains_key(entries[i].0) && m[entries[i].0]
            == entries[i].1@
    &&& forall|t: TypeIdNum| #[trigger] m.contains_key(t) ==> exists|i: int|
        0 <= i < entries.len() && entries[i].0 == t
}

impl PendingEntity {
    /// No components.
    pub fn new() -> (r: Self)
        ensures
            r@ == Map::<TypeIdNum, Seq<u8>>::empty(),
    {
        let r = PendingEntity { data: BTreeMap::new() };
        proof {
            assert(r@ =~= Map::<TypeIdNum, Seq<u8>>::empty());
        }
        r
    }

    /// Every component, each once, in increasing order of type number.
    pub fn iter(&self) -> (r: Vec<(TypeIdNum, Vec<u8>)>)
        ensures
            lists_components(r@, self@),
            forall|i: int, j: int| 0 <= i < j < r@.len() ==> r@[i].0 < r@[j].0,
    {
        let mut entries: Vec<(TypeIdNum, Vec<u8>)> = Vec::new();
        let probe = self.data.iter();
        proof {
            broadcast use {vstd::std_specs::btree::group_btree_axioms, vstd::laws_cmp::group_laws_cmp};
            let rem = vstd::std_specs::iter::IteratorSpec::remaining(&probe);
            let keys = rem.map_values(|kv: (&TypeIdNum, &Vec<u8>)| *kv.0);
            assert(vstd::std_specs::btree::key_obeys_cmp_spec::<TypeIdNum>());
            assert(vstd::std_specs::btree::increasing_seq(keys));
            assert(probe == vstd::std_specs::btree::spec_btree_map_iter(&self.data));
            assert forall|i: int, j: int| 0 <= i < j < rem.len() implies *rem[i].0 < *rem[j].0 by {
                assert(vstd::std_specs::cmp::OrdSpec::cmp_spec(&keys[i], &keys[j]) is Less);
                assert(keys[i] == *rem[i].0 && keys[j] == *rem[j].0);
            }
        }
        for pair in it: self.data.iter()
            invariant
                it.seq().no_duplicates(),
                forall|i: int, j: int|
                    0 <= i < j < it.seq().len() ==> *it.seq()[i].0 < *it.seq()[j].0,
                forall|i: int|
                    0 <= i < it.seq().len() ==> #[trigger] self.data@.contains_key(*it.seq()[i].0)
                        && self.data@[*it.seq()[i].0] == *it.seq()[i].1,
                forall|t: TypeIdNum|
                    #[trigger] self.data@.contains_key(t) ==> exists|i: int|
                        0 <= i < it.seq().len() && *it.seq()[i].0 == t,
                it.seq().len() == self.data@.dom().len(),
                entries@.len() == it.index(),
                forall|i: int|
                    0 <= i < it.index() ==> #[trigger] entries@[i].0 == *it.seq()[i].0
                        && entries@[i].1@ == it.seq()[i].1@,
                forall|i: int, j: int| 0 <= i < j < entries@.len() ==> entries@[i].0 < entries@[j].0,
                forall|i: int, j: int|
                    0 <= i < j < entries@.len() ==> entries@[i].0 != entries@[j].0,
                forall|i: int|
                    0 <= i < entries@.len() ==> #[trigger] self@.contains_key(entries@[i].0)
                        && self@[entries@[i].0] == entries@[i].1@,
                forall|t: TypeIdNum|
                    #[trigger] self.data@.contains_key(t) ==> (exists|i: int|
                        0 <= i < entries@.len() && entries@[i].0 == t) || (exists|i: int|
                        it.index() <= i < it.seq().len() && *it.seq()[i].0 == t),
        {
            let ghost idx = it.index();
            let ghost old_entries = entries@;
            let (type_id, bytes) = pair;
            assert(self.data@.contains_key(*it.seq()[idx].0));
            entries.push((*type_id, bytes.clone()));
            proof {
                assert forall|i: int| 0 <= i < idx implies entries@[i].0 != *type_id by {
                    assert(entries@[i].0 == *it.seq()[i].0);
                    if entries@[i].0 == *type_id {
                        assert(self.data@.contains_key(*it.seq()[i].0));
                        assert(it.seq()[i] == it.seq()[idx]);
                    }
                }
                assert forall|t: TypeIdNum| #[trigger] self.data@.contains_key(t) implies (exists|i: int|
                    0 <= i < entries@.len() && entries@[i].0 == t) || (exists|i: int|
                    idx + 1 <= i < it.seq().len() && *it.seq()[i].0 == t) by {
                    if exists|i: int| idx <= i < it.seq().len() && *it.seq()[i].0 == t {
                        let i = choose|i: int| idx <= i < it.seq().len() && *it.seq()[i].0 == t;
                        if i == idx {
                            assert(entries@[idx].0 == t);
                        }
                    } else {
                        let i = choose|i: int| 0 <= i < old_entries.len() && old_entries[i].0 == t;
                        assert(entries@[i] == old_entries[i]);
                    }
                }
            }
        }
        proof {
            assert(self@.dom() =~= self.data@.dom());
        }
        entries
    }

    /// The component types, each once, in increasing order.
    pub fn hash_types(&self) -> (r: TypesSet)
        ensures
            r@.no_duplicates(),
            r@.to_set() == self@.dom(),
            forall|i: int, j: int| 0 <= i < j < r@.len() ==> r@[i] < r@[j],
    {
        let entries = self.iter();
        let mut types: Vec<TypeIdNum> = Vec::new();
        let mut i: usize = 0;
        while i < entries.len()
            invariant
                i <= entries@.len(),
                lists_components(entries@, self@),
                forall|a: int, b: int| 0 <= a < b < entries@.len() ==> entries@[a].0 < entries@[b].0,
                types@.len() == i,
                forall|j: int| 0 <= j < i ==> #[trigger] types@[j] == entries@[j].0,
            decreases entries@.len() - i,
        {
            types.push(entries[i].0);
            i = i + 1;
        }
        proof {
            assert forall|a: int, b: int| 0 <= a < types@.len() && 0 <= b < types@.len() && a != b implies types@[a]
                != types@[b] by {
                if a < b {
                    assert(entries@[a].0 != entries@[b].0);
                } else {
                    assert(entries@[b].0 != entries@[a].0);
                }
            }
            assert forall|t: TypeIdNum| types@.to_set().contains(t) <==> self@.dom().contains(t) by {
                if self@.contains_key(t) {
                    let j = choose|j: int| 0 <= j < entries@.len() && entries@[j].0 == t;
                    assert(types@[j] == t);
                }
                if types@.contains(t) {
                    let j = choose|j: int| 0 <= j < types@.len() && types@[j] == t;
                    assert(self@.contains_key(entries@[j].0));
                }
            }
            assert(types@.to_set() =~= self@.dom());
        }
        types
    }

    /// Sets the component of type `type_id`, returning the bytes it replaced.
    pub fn set_comp(&mut self, type_id: TypeIdNum, bytes: Vec<u8>) -> (r: Option<Vec<u8>>)
        ensures
            final(self)@ == old(self)@.insert(type_id, bytes@),
            match r {
                Some(v) => old(self)@.contains_key(type_id) && v@ == old(self)@[type_id],
                None => !old(self)@.contains_key(type_id),
            },
    {
        let r = self.data.insert(type_id, bytes);
        proof {
            assert(self@ =~= old(self)@.insert(type_id, bytes@));
        }
        r
    }

    /// Adds a component of a type the entity does not have yet.
    pub fn add_comp(&mut self, type_id: TypeIdNum, bytes: Vec<u8>)
        requires
            !old(self)@.contains_key(type_id),
        ensures
            final(self)@ == old(self)@.insert(type_id, bytes@),
    {
        let _ = self.set_comp(type_id, bytes);
    }

    /// Removes the component of type `type_id`, if any.
    pub fn remove(&mut self, type_id: TypeIdNum)
        ensures
            final(self)@ == old(self)@.remove(type_id),
    {
        let _ = self.data.remove(&type_id);
        proof {
            assert(self@ =~= old(self)@.remove(type_id));
        }
    }
}

} // verus!
