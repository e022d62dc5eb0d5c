//! Entity creations and deletions requested while systems run, applied afterwards.
use vstd::prelude::*;

use crate::comp_store::CompStorage;
use crate::eid_manager::{
    creatable, issued_at, issues, lemma_create_step, lemma_creatable_can_create, lemma_issued_step, next_ids,
};
use crate::pending_entity::PendingEntity;
use crate::{GlobalEntityID, TypeIdNum};

verus! {

/// Entities to create and entity ids to delete.
pub struct EntStructureChanges {
    pub new_entities: Vec<PendingEntity>,
    pub deleted_entities: Vec<GlobalEntityID>,
}

/// The component of type `t` in a pending entity, if it has one.
pub open spec fn pending_comp(p: PendingEntity, t: TypeIdNum) -> Option<Seq<u8>> {
    if p@.contains_key(t) {
        Some(p@[t])
    } else {
        None
    }
}

/// Room is needed only for new entities: changes that create nothing, and whose deletions name
/// no live entity, can be applied to every well-formed storage, full or not.
pub proof fn lemma_no_creations_applicable(changes: EntStructureChanges, storage: CompStorage)
    requires
        storage.wf(),
        changes.new_entities@.len() == 0,
        forall|j: int|
            0 <= j < changes.deleted_entities@.len() ==> storage.registry().lookup(
                #[trigger] changes.deleted_entities@[j],
            ) is None,
    ensures
        changes.applicable(storage),
{
}

/// Changes can be applied exactly where every new entity has a component, the registry can
/// make that many creations in a row, and no deletion names an entity that is live or that
/// those creations will make; in particular it does not matter whether the registry has room
/// for more entities than are created.
pub proof fn lemma_applicable_needs_room_for_new_only(changes: EntStructureChanges, storage: CompStorage)
    requires
        storage.wf(),
        forall|i: int|
            0 <= i < changes.new_entities@.len() ==> #[trigger] changes.new_entities@[i]@.dom().len() > 0,
        creatable(storage.registry(), 0, changes.new_entities@.len() as int),
        forall|j: int|
            0 <= j < changes.deleted_entities@.len() ==> {
                let d = #[trigger] changes.deleted_entities@[j];
                &&& storage.registry().lookup(d) is None
                &&& !issues(storage.registry(), 0, changes.new_entities@.len() as int, d)
            },
    ensures
        changes.applicable(storage),
{
}

impl EntStructureChanges {
    /// Whether `storage` can take these changes: every new entity has a component, the
    /// registry has a fitting slot for each, and no id to delete names a live entity, then
    /// or after the creations.
    pub open spec fn applicable(&self, storage: CompStorage) -> bool {
        &&& storage.wf()
        &&& forall|i: int|
            0 <= i < self.new_entities@.len() ==> #[trigger] self.new_entities@[i]@.dom().len() > 0
        &&& creatable(storage.registry(), 0, self.new_entities@.len() as int)
        &&& forall|j: int|
            0 <= j < self.deleted_entities@.len() ==> {
                let d = #[trigger] self.deleted_entities@[j];
                &&& storage.registry().lookup(d) is None
                &&& !issues(storage.registry(), 0, self.new_entities@.len() as int, d)
            }
    }

    /// Whether `storage` can take these changes (see `applicable`).
    pub fn applicable_to(&self, storage: &CompStorage) -> (r: bool)
        requires
            storage.wf(),
        ensures
            r == self.applicable(*storage),
            self.new_entities@.len() == 0 ==> (r <==> forall|j: int|
                0 <= j < self.deleted_entities@.len() ==> storage.registry().lookup(
                    #[trigger] self.deleted_entities@[j],
                ) is None),
    {
        let n = self.new_entities.len();
        let mut i: usize = 0;
        while i < n
            invariant
                n == self.new_entities@.len(),
                i <= n,
                forall|j: int| 0 <= j < i ==> #[trigger] self.new_entities@[j]@.dom().len() > 0,
            decreases n - i,
        {
            if self.new_entities[i].iter().len() == 0 {
                return false;
            }
            i = i + 1;
        }
        let (fits, _) = storage.plan_creations(n, 0);
        if !fits {
            return false;
        }
        let mut j: usize = 0;
        while j < self.deleted_entities.len()
            invariant
                storage.wf(),
                n == self.new_entities@.len(),
                j <= self.deleted_entities@.len(),
                forall|k: int|
                    0 <= k < j ==> {
                        let d = #[trigger] self.deleted_entities@[k];
                        &&& storage.registry().lookup(d) is None
                        &&& !issues(storage.registry(), 0, n as int, d)
                    },
            decreases self.deleted_entities@.len() - j,
        {
            let d = self.deleted_entities[j];
            if storage.is_live(d) {
                return false;
            }
            let (_, hit) = storage.plan_creations(n, d);
            if hit {
                return false;
            }
            j = j + 1;
        }
        true
    }

    /// Creates the new entities in order, then deletes the listed ids (which name no live
    /// entity, so deleting changes nothing). The new entities get the ids the registry hands
    /// out next, in order.
    pub fn apply(self, storage: &mut CompStorage)
        requires
            self.applicable(*old(storage)),
        ensures
            final(storage).wf(),
            ({
                let ids = next_ids(old(storage).registry(), self.new_entities@.len());
                &&& ids.no_duplicates()
                &&& forall|i: int|
                    0 <= i < ids.len() ==> old(storage).registry().lookup(#[trigger] ids[i]) is None
                        && final(storage).registry().lookup(ids[i]) is Some
                &&& forall|i: int, t: TypeIdNum|
                    0 <= i < ids.len() ==> #[trigger] final(storage).comp_bytes(ids[i], t)
                        == pending_comp(self.new_entities@[i], t)
                &&& forall|id: GlobalEntityID, t: TypeIdNum|
                    !ids.contains(id) ==> #[trigger] final(storage).comp_bytes(id, t) == old(
                        storage,
                    ).comp_bytes(id, t)
            }),
    {
        let ghost n = self.new_entities@.len() as int;
        let ghost news = self.new_entities@;
        let ghost dels = self.deleted_entities@;
        let ghost reg0 = old(storage).registry();
        let ghost mut ids: Seq<GlobalEntityID> = Seq::empty();
        let mut remaining = self.new_entities;
        let deleted_entities = self.deleted_entities;
        while remaining.len() > 0
            invariant
                0 <= n - remaining@.len(),
                remaining@ == news.subrange(n - remaining@.len(), n),
                n == news.len(),
                dels == deleted_entities@,
                reg0 == old(storage).registry(),
                forall|i: int| 0 <= i < news.len() ==> #[trigger] news[i]@.dom().len() > 0,
                storage.wf(),
                creatable(storage.registry(), 0, remaining@.len() as int),
                forall|j: int|
                    0 <= j < dels.len() ==> {
                        let d = #[trigger] dels[j];
                        &&& storage.registry().lookup(d) is None
                        &&& !issues(storage.registry(), 0, remaining@.len() as int, d)
                    },
                ids.len() == n - remaining@.len(),
                forall|i: int| 0 <= i < ids.len() ==> #[trigger] ids[i] == issued_at(reg0, 0, i as nat),
                forall|k: nat| #[trigger] issued_at(storage.registry(), 0, k) == issued_at(reg0, 0, ids.len() + k),
                ids.no_duplicates(),
                forall|i: int|
                    0 <= i < ids.len() ==> old(storage).registry().lookup(#[trigger] ids[i]) is None
                        && storage.registry().lookup(ids[i]) is Some,
                forall|i: int, t: TypeIdNum|
                    0 <= i < ids.len() ==> #[trigger] storage.comp_bytes(ids[i], t) == pending_comp(
                        news[i],
                        t,
                    ),
                forall|id: GlobalEntityID|
                    !ids.contains(id) ==> #[trigger] storage.registry().lookup(id) == old(
                        storage,
                    ).registry().lookup(id),
                forall|id: GlobalEntityID, t: TypeIdNum|
                    !ids.contains(id) ==> #[trigger] storage.comp_bytes(id, t) == old(
                        storage,
                    ).comp_bytes(id, t),
            decreases remaining@.len(),
        {
            let ghost left = remaining@.len() as int;
            let ghost prev = *storage;
            let ghost k = n - left;
            let pending = remaining.remove(0);
            proof {
                assert(pending == news[k]);
                assert(remaining@ =~= news.subrange(k + 1, n));
                lemma_creatable_can_create(prev.registry(), left);
            }
            let new_id = storage.create_entity(pending);
            proof {
                lemma_create_step(storage.registry(), prev.registry(), new_id, left, 0);
                assert forall|j: int| 0 <= j < dels.len() implies {
                    let d = #[trigger] dels[j];
                    &&& storage.registry().lookup(d) is None
                    &&& !issues(storage.registry(), 0, left - 1, d)
                } by {
                    lemma_create_step(storage.registry(), prev.registry(), new_id, left, dels[j]);
                }
                assert forall|kk: nat| #[trigger] issued_at(storage.registry(), 0, kk) == issued_at(
                    reg0,
                    0,
                    ids.len() + 1 + kk,
                ) by {
                    lemma_issued_step(storage.registry(), prev.registry(), new_id, kk);
                    assert(issued_at(prev.registry(), 0, kk + 1) == issued_at(reg0, 0, ids.len() + (kk + 1)));
                }
                assert(new_id == issued_at(reg0, 0, ids.len() as nat)) by {
                    assert(issued_at(prev.registry(), 0, 0) == issued_at(reg0, 0, ids.len() + 0));
                }
                assert(!ids.contains(new_id)) by {
                    if ids.contains(new_id) {
                        let i = choose|i: int| 0 <= i < ids.len() && ids[i] == new_id;
                        assert(prev.registry().lookup(ids[i]) is Some);
                    }
                }
                assert(old(storage).registry().lookup(new_id) is None);
                let old_ids = ids;
                ids = ids.push(new_id);
                assert forall|i: int| 0 <= i < ids.len() implies #[trigger] ids[i] == issued_at(
                    reg0,
                    0,
                    i as nat,
                ) by {
                    if i < old_ids.len() {
                        assert(ids[i] == old_ids[i]);
                    }
                }
                assert forall|i: int| 0 <= i < ids.len() implies old(storage).registry().lookup(
                    #[trigger] ids[i],
                ) is None && storage.registry().lookup(ids[i]) is Some by {
                    if i < old_ids.len() {
                        assert(old_ids[i] != new_id);
                    }
                }
                assert forall|i: int, t: TypeIdNum| 0 <= i < ids.len() implies #[trigger] storage.comp_bytes(
                    ids[i],
                    t,
                ) == pending_comp(news[i], t) by {
                    if i < old_ids.len() {
                        assert(old_ids[i] != new_id);
                        assert(prev.comp_bytes(old_ids[i], t) == pending_comp(news[i], t));
                    }
                }
                assert forall|id: GlobalEntityID| !ids.contains(id) implies #[trigger] storage.registry().lookup(
                    id,
                ) == old(storage).registry().lookup(id) by {
                    if old_ids.contains(id) {
                        let i = choose|i: int| 0 <= i < old_ids.len() && old_ids[i] == id;
                        assert(ids[i] == id);
                    }
                    assert(ids[ids.len() - 1] == new_id);
                    assert(!old_ids.contains(id));
                    assert(id != new_id);
                }
                assert forall|id: GlobalEntityID, t: TypeIdNum| !ids.contains(id) implies #[trigger] storage.comp_bytes(
                    id,
                    t,
                ) == old(storage).comp_bytes(id, t) by {
                    if old_ids.contains(id) {
                        let i = choose|i: int| 0 <= i < old_ids.len() && old_ids[i] == id;
                        assert(ids[i] == id);
                    }
                    assert(ids[ids.len() - 1] == new_id);
                    assert(!old_ids.contains(id));
                    assert(id != new_id);
                    assert(prev.comp_bytes(id, t) == old(storage).comp_bytes(id, t));
                }
            }
        }
        let ghost after_creates = *storage;
        let mut j: usize = 0;
        while j < deleted_entities.len()
            invariant
                j <= dels.len(),
                dels == deleted_entities@,
                *storage == after_creates,
                storage.wf(),
                forall|i: int| 0 <= i < dels.len() ==> storage.registry().lookup(#[trigger] dels[i]) is None,
            decreases dels.len() - j,
        {
            let _ = storage.delete_entity(deleted_entities[j]);
            j = j + 1;
        }
        proof {
            assert(ids =~= next_ids(reg0, news.len()));
        }
    }

    /// Moves all of these changes, in order, to the end of `other`'s.
    pub fn move_into(self, other: &mut Self)
        ensures
            final(other).new_entities@ == old(other).new_entities@ + self.new_entities@,
            final(other).deleted_entities@ == old(other).deleted_entities@ + self.deleted_entities@,
    {
        let mut new_entities = self.new_entities;
        let mut deleted_entities = self.deleted_entities;
        other.new_entities.append(&mut new_entities);
        other.deleted_entities.append(&mut deleted_entities);
    }
}

} // verus!
