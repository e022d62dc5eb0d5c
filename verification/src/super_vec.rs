//! A list of values of one component type, stored back to back as their bytes.
use vstd::prelude::*;

use crate::TypeIdNum;

verus! {

/// Values of type `item_type`, each `item_size` bytes long, one after the other.
pub struct SuperVec {
    item_size: usize,
    data: Vec<u8>,
    item_type: TypeIdNum,
}

/// A list of values of one type in the form it travels in: its item size, the bytes of
/// each item, and its type.
#[derive(Clone, Debug)]
pub struct SuperVecPortable {
    pub item_size_when_deser: usize,
    pub data: Vec<Vec<u8>>,
    pub item_type_when_deser: TypeIdNum,
}

/// The bytes of each item of a travelling list.
pub open spec fn portable_items(p: SuperVecPortable) -> Seq<Seq<u8>> {
    p.data@.map_values(|v: Vec<u8>| v@)
}

/// Whether a travelling list has a non-zero item size and every item is that long.
pub open spec fn portable_fits(p: SuperVecPortable) -> bool {
    &&& p.item_size_when_deser > 0
    &&& forall|i: int| 0 <= i < p.data@.len() ==> #[trigger] p.data@[i]@.len() == p.item_size_when_deser
}

/// After pushing `bytes`, the item at the old length is `bytes` and every earlier item is
/// as it was.
pub proof fn lemma_push_then_get(before: SuperVec, after: SuperVec, bytes: Seq<u8>)
    requires
        after.items() == before.items().push(bytes),
    ensures
        after.items().len() == before.items().len() + 1,
        after.items()[before.items().len() as int] == bytes,
        forall|i: int| 0 <= i < before.items().len() ==> #[trigger] after.items()[i] == before.items()[i],
{
}

/// Putting a list into its travelling form and back gives a list of the same size, type
/// and items.
pub proof fn lemma_portable_round_trip(v: SuperVec, p: SuperVecPortable, w: SuperVec)
    requires
        p.item_size_when_deser == v.size(),
        p.item_type_when_deser == v.kind(),
        portable_items(p) == v.items(),
        w.size() == p.item_size_when_deser,
        w.kind() == p.item_type_when_deser,
        w.items() == portable_items(p),
    ensures
        w.size() == v.size(),
        w.kind() == v.kind(),
        w.items() == v.items(),
{
}

impl Clone for SuperVec {
    /// A list of the same size, type and bytes. Items are held as bytes, so each item's bytes
    /// are copied as they stand (a shallow copy), not through the item type's own clone.
    fn clone(&self) -> (r: Self)
        ensures
            r.size() == self.size(),
            r.kind() == self.kind(),
            r.items() == self.items(),
            r.wf() == self.wf(),
    {
        let mut data: Vec<u8> = Vec::new();
        data.extend_from_slice(self.data.as_slice());
        proof {
            assert(data@ =~= self.data@);
        }
        SuperVec { item_size: self.item_size, data, item_type: self.item_type }
    }
}

impl SuperVec {
    /// The data holds a whole number of items of a non-zero size.
    pub closed spec fn wf(&self) -> bool {
        &&& self.item_size > 0
        &&& (self.data@.len() as int) % (self.item_size as int) == 0
    }

    /// The size of each item in bytes.
    pub closed spec fn size(&self) -> nat {
        self.item_size as nat
    }

    /// The type of every item.
    pub closed spec fn kind(&self) -> TypeIdNum {
        self.item_type
    }

    /// The bytes of each item, in order.
    pub closed spec fn items(&self) -> Seq<Seq<u8>> {
        let s = self.item_size as int;
        Seq::new(
            (self.data@.len() as int / s) as nat,
            |i: int| self.data@.subrange(i * s, (i + 1) * s),
        )
    }

    /// No items of type `item_type`, whose values are `item_size` bytes long.
    pub fn new(item_type: TypeIdNum, item_size: usize) -> (r: Self)
        requires
            item_size > 0,
        ensures
            r.wf(),
            r.kind() == item_type,
            r.size() == item_size,
            r.items() == Seq::<Seq<u8>>::empty(),
    {
        let r = SuperVec { item_size, data: Vec::new(), item_type };
        proof {
            assert(r.items() =~= Seq::<Seq<u8>>::empty());
        }
        r
    }

    /// The type of every item.
    pub fn item_type(&self) -> (r: TypeIdNum)
        ensures
            r == self.kind(),
    {
        self.item_type
    }

    /// The size of each item in bytes.
    pub fn item_size(&self) -> (r: usize)
        ensures
            r == self.size(),
    {
        self.item_size
    }

    /// The number of items.
    pub fn len(&self) -> (r: usize)
        requires
            self.wf(),
        ensures
            r == self.items().len(),
    {
        self.data.len() / self.item_size
    }

    /// Appends an item, given as its bytes, of the list's type and size.
    pub fn push(&mut self, item_type: TypeIdNum, bytes: Vec<u8>)
        requires
            old(self).wf(),
            item_type == old(self).kind(),
            bytes@.len() == old(self).size(),
        ensures
            final(self).wf(),
            final(self).kind() == old(self).kind(),
            final(self).size() == old(self).size(),
            final(self).items() == old(self).items().push(bytes@),
    {
        let ghost s = self.item_size as int;
        let ghost old_data = self.data@;
        let ghost b = bytes@;
        let mut bytes = bytes;
        self.data.append(&mut bytes);
        proof {
            let n = old_data.len() as int / s;
            assert(old_data.len() == n * s) by (nonlinear_arith)
                requires
                    (old_data.len() as int) % s == 0,
                    s > 0,
                    n == old_data.len() as int / s,
            {}
            assert(self.data@.len() == (n + 1) * s) by (nonlinear_arith)
                requires
                    self.data@.len() == n * s + s,
            {}
            assert((self.data@.len() as int) % s == 0) by (nonlinear_arith)
                requires
                    self.data@.len() == (n + 1) * s,
                    s > 0,
            {}
            assert(self.data@.len() as int / s == n + 1) by (nonlinear_arith)
                requires
                    self.data@.len() == (n + 1) * s,
                    s > 0,
            {}
            assert forall|i: int| 0 <= i < n implies #[trigger] self.data@.subrange(i * s, (i + 1) * s)
                == old_data.subrange(i * s, (i + 1) * s) by {
                assert(0 <= i * s && i * s <= (i + 1) * s && (i + 1) * s <= n * s) by (nonlinear_arith)
                    requires
                        0 <= i < n,
                        s > 0,
                {}
                assert(self.data@.subrange(i * s, (i + 1) * s) =~= old_data.subrange(i * s, (i + 1) * s));
            }
            assert(self.data@.subrange(n * s, (n + 1) * s) =~= b) by {
                assert((n + 1) * s == n * s + s) by (nonlinear_arith);
            }
            assert(self.items() =~= old(self).items().push(b));
        }
    }

    /// The bytes of item `index`.
    pub fn get_as_bytes(&self, index: usize) -> (r: &[u8])
        requires
            self.wf(),
            index < self.items().len(),
        ensures
            r@ == self.items()[index as int],
    {
        let ghost s = self.item_size as int;
        let total = self.data.len();
        proof {
            let n = self.data@.len() as int / s;
            assert((index + 1) * s <= self.data@.len()) by (nonlinear_arith)
                requires
                    index < n,
                    n == self.data@.len() as int / s,
                    s > 0,
            {}
            assert(index * s + s == (index + 1) * s) by (nonlinear_arith);
            assert(0 <= index * s) by (nonlinear_arith)
                requires
                    s > 0,
            {}
        }
        let start = index * self.item_size;
        let end = start + self.item_size;
        vstd::slice::slice_subrange(self.data.as_slice(), start, end)
    }

    /// The list in the form it travels in.
    pub fn to_portable(&self) -> (r: SuperVecPortable)
        requires
            self.wf(),
        ensures
            r.item_size_when_deser == self.size(),
            r.item_type_when_deser == self.kind(),
            portable_items(r) == self.items(),
            portable_fits(r),
    {
        let n = self.len();
        let mut items: Vec<Vec<u8>> = Vec::new();
        let mut i: usize = 0;
        while i < n
            invariant
                self.wf(),
                n == self.items().len(),
                i <= n,
                items@.len() == i,
                forall|j: int| 0 <= j < i ==> #[trigger] items@[j]@ == self.items()[j],
            decreases n - i,
        {
            let bytes = self.get_as_bytes(i);
            let mut copy: Vec<u8> = Vec::new();
            copy.extend_from_slice(bytes);
            proof {
                assert(copy@ =~= bytes@);
            }
            items.push(copy);
            i = i + 1;
        }
        let r = SuperVecPortable {
            item_size_when_deser: self.item_size,
            data: items,
            item_type_when_deser: self.item_type,
        };
        proof {
            assert(portable_items(r) =~= self.items());
            assert forall|j: int| 0 <= j < r.data@.len() implies #[trigger] r.data@[j]@.len()
                == r.item_size_when_deser by {
                assert(r.data@[j]@ == self.items()[j]);
                self.lemma_item_len(j);
            }
        }
        r
    }

    /// Each item of a well-formed list is `size()` bytes long.
    pub proof fn lemma_item_len(&self, i: int)
        requires
            self.wf(),
            0 <= i < self.items().len(),
        ensures
            self.items()[i].len() == self.size(),
    {
        let s = self.item_size as int;
        let n = self.data@.len() as int / s;
        assert((i + 1) * s <= self.data@.len()) by (nonlinear_arith)
            requires
                0 <= i < n,
                n == self.data@.len() as int / s,
                s > 0,
        {}
        assert(0 <= i * s && i * s + s == (i + 1) * s) by (nonlinear_arith)
            requires
                0 <= i,
                s > 0,
        {}
    }

    /// The list a travelling list stands for; every item must be the list's item size long.
    pub fn from_portable(portable: SuperVecPortable) -> (r: Self)
        requires
            portable_fits(portable),
        ensures
            r.wf(),
            r.size() == portable.item_size_when_deser,
            r.kind() == portable.item_type_when_deser,
            r.items() == portable_items(portable),
    {
        let mut out = SuperVec::new(portable.item_type_when_deser, portable.item_size_when_deser);
        let mut i: usize = 0;
        while i < portable.data.len()
            invariant
                portable_fits(portable),
                i <= portable.data@.len(),
                out.wf(),
                out.size() == portable.item_size_when_deser,
                out.kind() == portable.item_type_when_deser,
                out.items() == portable_items(portable).take(i as int),
            decreases portable.data@.len() - i,
        {
            let mut copy: Vec<u8> = Vec::new();
            copy.extend_from_slice(portable.data[i].as_slice());
            proof {
                assert(copy@ =~= portable.data@[i as int]@);
                assert(portable_items(portable).take(i + 1) =~= portable_items(portable).take(
                    i as int,
                ).push(copy@));
            }
            out.push(portable.item_type_when_deser, copy);
            i = i + 1;
        }
        proof {
            assert(portable_items(portable).take(i as int) =~= portable_items(portable));
        }
        out
    }

    /// The bytes of item `index`, if there is one; the items must be of type `item_type`.
    pub fn get(&self, item_type: TypeIdNum, index: usize) -> (r: Option<&[u8]>)
        requires
            self.wf(),
            item_type == self.kind(),
        ensures
            match r {
                Some(bytes) => index < self.items().len() && bytes@ == self.items()[index as int],
                None => index >= self.items().len(),
            },
    {
        if self.len() <= index {
            None
        } else {
            Some(self.get_as_bytes(index))
        }
    }
}

} // verus!
