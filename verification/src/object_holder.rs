//! A value of any component type held together with the number of its type, and the byte
//! form in which such a value travels: the type number as bincode writes a `u64` (eight
//! bytes, least significant first), then the value's own bytes.
//!
//! A holder made from a value keeps the value's bytes; a holder read from bytes keeps the
//! unread payload until the value is asked for, and from then on holds the value as the
//! bytes it was read from.
use vstd::prelude::*;

use std::collections::BTreeMap;

use crate::TypeIdNum;

verus! {

/// A value that can be held: it can give the bytes it travels as.
pub trait SerdeObject: Send {
    fn my_ser(&self) -> Vec<u8>;
}

/// `bytes` are bytes that `object.my_ser()` can return.
pub open spec fn ser_result<T: SerdeObject>(object: &T, bytes: Seq<u8>) -> bool {
    exists|v: Vec<u8>| #[trigger] call_ensures(T::my_ser, (object,), v) && v@ == bytes
}

/// The eight bytes of `v`, least significant first.
pub open spec fn u64_le_bytes(v: u64) -> Seq<u8> {
    seq![
        v as u8,
        (v >> 8u64) as u8,
        (v >> 16u64) as u8,
        (v >> 24u64) as u8,
        (v >> 32u64) as u8,
        (v >> 40u64) as u8,
        (v >> 48u64) as u8,
        (v >> 56u64) as u8,
    ]
}

/// The `u64` whose bytes, least significant first, are the first eight of `b`.
pub open spec fn u64_from_le(b: Seq<u8>) -> u64 {
    (b[0] as u64) | ((b[1] as u64) << 8u64) | ((b[2] as u64) << 16u64) | ((b[3] as u64) << 24u64)
        | ((b[4] as u64) << 32u64) | ((b[5] as u64) << 40u64) | ((b[6] as u64) << 48u64) | ((
    b[7] as u64) << 56u64)
}

/// Reading back the eight bytes of `v` gives `v`.
pub proof fn lemma_u64_le_round_trip(v: u64)
    ensures
        u64_from_le(u64_le_bytes(v)) == v,
{
    let b = u64_le_bytes(v);
    let (b0, b1, b2, b3, b4, b5, b6, b7) = (b[0], b[1], b[2], b[3], b[4], b[5], b[6], b[7]);
    assert((b0 as u64) | ((b1 as u64) << 8u64) | ((b2 as u64) << 16u64) | ((b3 as u64) << 24u64) | ((
    b4 as u64) << 32u64) | ((b5 as u64) << 40u64) | ((b6 as u64) << 48u64) | ((b7 as u64) << 56u64)
        == v) by (bit_vector)
        requires
            b0 == v as u8,
            b1 == (v >> 8u64) as u8,
            b2 == (v >> 16u64) as u8,
            b3 == (v >> 24u64) as u8,
            b4 == (v >> 32u64) as u8,
            b5 == (v >> 40u64) as u8,
            b6 == (v >> 48u64) as u8,
            b7 == (v >> 56u64) as u8,
    ;
}

/// Calls `bincode::serialize` on a `u64`. With bincode's top-level configuration (fixed-width
/// integers, little-endian) a `u64` is written as its eight bytes, least significant first,
/// and writing into a `Vec` does not fail.
#[verifier::external_body]
fn bincode_u64_bytes(v: u64) -> (r: Option<Vec<u8>>)
    ensures
        r is Some && r->0@ == u64_le_bytes(v),
{
    bincode::serialize(&v).ok()
}

/// Calls `bincode::deserialize::<u64>`. With bincode's top-level configuration it reads the
/// first eight bytes as a `u64`, least significant first, and ignores any bytes after them;
/// with fewer than eight bytes it fails.
#[verifier::external_body]
fn bincode_u64_from(bytes: &[u8]) -> (r: Option<u64>)
    ensures
        bytes@.len() >= 8 ==> r == Some(u64_from_le(bytes@)),
        bytes@.len() < 8 ==> r is None,
{
    bincode::deserialize::<u64>(bytes).ok()
}

/// A value of the component type numbered `my_type`: held as its bytes, or still to be read
/// from the payload it arrived as.
pub struct TOH {
    my_type: TypeIdNum,
    serable: Option<Vec<u8>>,
    blobbity: Vec<u8>,
}

impl View for TOH {
    /// The type number, the held value's bytes if it is held, and the unread payload.
    type V = (TypeIdNum, Option<Seq<u8>>, Seq<u8>);

    closed spec fn view(&self) -> (TypeIdNum, Option<Seq<u8>>, Seq<u8>) {
        (
            self.my_type,
            match self.serable {
                Some(v) => Some(v@),
                None => None,
            },
            self.blobbity@,
        )
    }
}

/// The bytes a holder of type `my_type` holding a value with bytes `value` travels as.
pub open spec fn toh_bytes(my_type: TypeIdNum, value: Seq<u8>) -> Seq<u8> {
    u64_le_bytes(my_type) + value
}

/// Whether a holder viewed as `v` can give its value: it holds one, or has a payload to
/// read one from.
pub open spec fn readable(v: (TypeIdNum, Option<Seq<u8>>, Seq<u8>)) -> bool {
    v.1 is Some || v.2.len() > 0
}

/// The bytes of the value a holder viewed as `v` gives: the held value's, else the payload's.
pub open spec fn value_bytes(v: (TypeIdNum, Option<Seq<u8>>, Seq<u8>)) -> Seq<u8> {
    match v.1 {
        Some(b) => b,
        None => v.2,
    }
}

/// Writing a holder out and reading it back gives a holder of the same type whose value
/// has the same bytes.
pub proof fn lemma_toh_round_trip(my_type: TypeIdNum, value: Seq<u8>)
    ensures
        toh_bytes(my_type, value).len() >= 8,
        u64_from_le(toh_bytes(my_type, value)) == my_type,
        toh_bytes(my_type, value).subrange(8, toh_bytes(my_type, value).len() as int) == value,
{
    let b = toh_bytes(my_type, value);
    lemma_u64_le_round_trip(my_type);
    assert(b.subrange(8, b.len() as int) =~= value);
    assert(u64_from_le(b) == u64_from_le(u64_le_bytes(my_type)));
}

impl Clone for TOH {
    /// A holder of the same type, value and payload.
    fn clone(&self) -> (r: Self)
        ensures
            r@ == self@,
    {
        let serable = match &self.serable {
            Some(existing) => Some(existing.clone()),
            None => None,
        };
        TOH { my_type: self.my_type, serable, blobbity: self.blobbity.clone() }
    }
}

impl TOH {
    /// Holds `object`, whose component type is numbered `my_type`. The number comes from the
    /// caller, who gives each component type its own number; nothing here ties it to `T`.
    pub fn new<T: SerdeObject>(my_type: TypeIdNum, object: T) -> (r: Self)
        ensures
            r@.0 == my_type,
            r@.1 matches Some(b) && ser_result(&object, b),
            r@.2.len() == 0,
    {
        let bytes = object.my_ser();
        TOH { my_type, serable: Some(bytes), blobbity: Vec::new() }
    }

    /// The number of the held value's type.
    pub fn type_num(&self) -> (r: TypeIdNum)
        ensures
            r == self@.0,
    {
        self.my_type
    }

    /// Whether the value is held (rather than still to be read from the payload).
    pub fn holds_value(&self) -> (r: bool)
        ensures
            r == self@.1 is Some,
    {
        self.serable.is_some()
    }

    /// Whether the holder can give its value: it holds it, or has a payload to read it from.
    pub fn can_give(&self) -> (r: bool)
        ensures
            r == readable(self@),
    {
        self.serable.is_some() || self.blobbity.len() > 0
    }

    /// The holder's type number and value as bytes: the type number's eight bytes, least
    /// significant first, then the value's bytes. Only a holder that holds its value can be
    /// written out.
    pub fn to_bytes(&self) -> (r: Vec<u8>)
        requires
            self@.1 is Some,
        ensures
            r@ == toh_bytes(self@.0, self@.1->0),
    {
        let mut bytes = match bincode_u64_bytes(self.my_type) {
            Some(b) => b,
            None => Vec::new(),
        };
        let mut value = match &self.serable {
            Some(v) => v.clone(),
            None => Vec::new(),
        };
        bytes.append(&mut value);
        bytes
    }

    /// A holder read from bytes: the type number from the first eight, least significant
    /// first, and the rest kept as the unread payload.
    pub fn from_bytes(bytes: &[u8]) -> (r: Self)
        requires
            bytes@.len() >= 8,
        ensures
            r@ == (u64_from_le(bytes@), None::<Seq<u8>>, bytes@.subrange(8, bytes@.len() as int)),
    {
        let head = vstd::slice::slice_subrange(bytes, 0, 8);
        let type_id = match bincode_u64_from(head) {
            Some(t) => t,
            None => 0,
        };
        proof {
            assert(head@ == bytes@.subrange(0, 8));
            assert(u64_from_le(head@) == u64_from_le(bytes@));
        }
        let mut data: Vec<u8> = Vec::new();
        let mut i: usize = 8;
        while i < bytes.len()
            invariant
                8 <= i <= bytes@.len(),
                data@ == bytes@.subrange(8, i as int),
            decreases bytes@.len() - i,
        {
            data.push(bytes[i]);
            proof {
                assert(bytes@.subrange(8, i + 1) =~= bytes@.subrange(8, i as int).push(bytes@[i as int]));
            }
            i = i + 1;
        }
        TOH { my_type: type_id, serable: None, blobbity: data }
    }

    /// The value's bytes, for a holder of type `type_id`; a holder that has not read its
    /// value yet reads it from its payload first and holds it from then on. Values are held as
    /// bytes, so this gives a copy of them: to change the value, hold a new one.
    pub fn get(&mut self, type_id: TypeIdNum) -> (r: Vec<u8>)
        requires
            type_id == old(self)@.0,
            readable(old(self)@),
        ensures
            r@ == value_bytes(old(self)@),
            final(self)@ == (old(self)@.0, Some(value_bytes(old(self)@)), old(self)@.2),
    {
        if self.serable.is_none() {
            self.serable = Some(self.blobbity.clone());
        }
        match &self.serable {
            Some(v) => v.clone(),
            None => Vec::new(),
        }
    }
}

/// Holders by component type number.
pub struct SerdeAnyMap {
    pub data: BTreeMap<TypeIdNum, TOH>,
}

impl View for SerdeAnyMap {
    /// Each holder, viewed, by type number.
    type V = Map<TypeIdNum, (TypeIdNum, Option<Seq<u8>>, Seq<u8>)>;

    open spec fn view(&self) -> Map<TypeIdNum, (TypeIdNum, Option<Seq<u8>>, Seq<u8>)> {
        self.data@.map_values(|t: TOH| t@)
    }
}

impl SerdeAnyMap {
    /// No values.
    pub fn new() -> (r: Self)
        ensures
            r@ == Map::<TypeIdNum, (TypeIdNum, Option<Seq<u8>>, Seq<u8>)>::empty(),
    {
        let r = SerdeAnyMap { data: BTreeMap::new() };
        proof {
            assert(r@ =~= Map::<TypeIdNum, (TypeIdNum, Option<Seq<u8>>, Seq<u8>)>::empty());
        }
        r
    }

    /// Whether a value of the type numbered `type_id` is held.
    pub fn contains_key(&self, type_id: TypeIdNum) -> (r: bool)
        ensures
            r == self@.contains_key(type_id),
    {
        self.data.contains_key(&type_id)
    }

    /// The bytes of the value of the type numbered `type_id`, if there is one; its holder
    /// keeps the value read from then on. Values are held as bytes, so this gives a copy of
    /// them: to change the value, `insert` a new one.
    pub fn get_mut(&mut self, type_id: TypeIdNum) -> (r: Option<Vec<u8>>)
        requires
            old(self)@.contains_key(type_id) ==> old(self)@[type_id].0 == type_id && readable(
                old(self)@[type_id],
            ),
        ensures
            match r {
                Some(bytes) => {
                    &&& old(self)@.contains_key(type_id)
                    &&& bytes@ == value_bytes(old(self)@[type_id])
                    &&& final(self)@ == old(self)@.insert(
                        type_id,
                        (type_id, Some(bytes@), old(self)@[type_id].2),
                    )
                },
                None => !old(self)@.contains_key(type_id) && final(self)@ == old(self)@,
            },
    {
        match self.data.remove(&type_id) {
            Some(mut toh) => {
                let bytes = toh.get(type_id);
                self.data.insert(type_id, toh);
                proof {
                    assert(self@ =~= old(self)@.insert(
                        type_id,
                        (type_id, Some(bytes@), old(self)@[type_id].2),
                    ));
                }
                Some(bytes)
            },
            None => {
                proof {
                    assert(self@ =~= old(self)@);
                }
                None
            },
        }
    }

    /// Holds `value`, of the type numbered `type_id`, in place of any value of that type.
    pub fn insert<T: SerdeObject>(&mut self, type_id: TypeIdNum, value: T)
        ensures
            final(self)@.contains_key(type_id),
            final(self)@[type_id].0 == type_id,
            final(self)@[type_id].1 matches Some(b) && ser_result(&value, b),
            final(self)@[type_id].2.len() == 0,
            forall|k: TypeIdNum| k != type_id ==> #[trigger] final(self)@.contains_key(k) == old(self)@.contains_key(k),
            forall|k: TypeIdNum|
                k != type_id && #[trigger] old(self)@.contains_key(k) ==> final(self)@[k] == old(self)@[k],
    {
        let toh = TOH::new(type_id, value);
        self.data.insert(type_id, toh);
    }

    /// Drops the value of the type numbered `type_id`, if any.
    pub fn remove(&mut self, type_id: TypeIdNum)
        ensures
            final(self)@ == old(self)@.remove(type_id),
    {
        let _ = self.data.remove(&type_id);
        proof {
            assert(self@ =~= old(self)@.remove(type_id));
        }
    }
}

} // verus!
