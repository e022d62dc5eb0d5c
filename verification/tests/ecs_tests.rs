use poggy::comp_store::CompStorage;
use poggy::eid_manager::{GlorifiedHashMap, InternalEntity, MAX_ENTITIES};
use poggy::ent_changes::EntStructureChanges;
use poggy::pending_entity::PendingEntity;

fn pending(comps: Vec<(u64, Vec<u8>)>) -> PendingEntity {
    let mut p = PendingEntity::new();
    for (t, bytes) in comps {
        p.add_comp(t, bytes);
    }
    p
}

#[test]
fn basic() {
    let comp1 = InternalEntity { composition_id: 2, internal_index: 1 };
    let comp2 = InternalEntity { composition_id: 4, internal_index: 3 };
    let mut storage = GlorifiedHashMap::new();
    let id1 = storage.create_entity(comp1);
    let id2 = storage.create_entity(comp2);
    storage.delete(id1);
    assert_eq!(comp2, *storage.get(id2).unwrap());
}

#[test]
fn ids_name_their_slot_and_start_past_the_slot_count() {
    let mut storage = GlorifiedHashMap::new();
    let e = InternalEntity { composition_id: 0, internal_index: 0 };
    let id1 = storage.create_entity(e);
    let id2 = storage.create_entity(e);
    assert_eq!(MAX_ENTITIES, 2);
    assert_eq!(id1, 2);
    assert_eq!(id2, 3);
    assert_eq!(storage.get(0), None);
    assert_eq!(storage.get(1), None);
}

#[test]
fn deleted_id_never_names_a_live_entity_again() {
    let mut storage = GlorifiedHashMap::new();
    let a = InternalEntity { composition_id: 1, internal_index: 0 };
    let b = InternalEntity { composition_id: 1, internal_index: 1 };
    let id1 = storage.create_entity(a);
    let _id2 = storage.create_entity(a);
    assert!(storage.delete(id1).is_none());
    assert_eq!(storage.get(id1), None);
    let id3 = storage.create_entity(b);
    assert_ne!(id3, id1);
    assert_eq!(id3, id1 + MAX_ENTITIES);
    assert_eq!(storage.get(id1), None);
    assert_eq!(storage.get(id3), Some(&b));
}

#[test]
fn deleting_an_unknown_id_changes_nothing() {
    let mut storage = GlorifiedHashMap::new();
    let a = InternalEntity { composition_id: 3, internal_index: 2 };
    let id = storage.create_entity(a);
    storage.delete(id + MAX_ENTITIES);
    assert_eq!(storage.get(id), Some(&a));
}

#[test]
fn pending_entity_components() {
    let mut p = PendingEntity::new();
    assert_eq!(p.set_comp(5, vec![1, 2]), None);
    assert_eq!(p.set_comp(5, vec![3]), Some(vec![1, 2]));
    p.add_comp(2, vec![9, 9]);
    assert_eq!(p.iter(), vec![(2, vec![9, 9]), (5, vec![3])]);
    assert_eq!(p.hash_types(), vec![2, 5]);
    p.remove(5);
    p.remove(77);
    assert_eq!(p.iter(), vec![(2, vec![9, 9])]);
}

#[test]
fn created_entity_reads_back_its_components() {
    let mut storage = CompStorage::new();
    let id = storage.create_entity(pending(vec![(10, vec![1, 2, 3]), (20, vec![4])]));
    assert_eq!(storage.get_comp(id, 10), Some(&vec![1, 2, 3]));
    assert_eq!(storage.get_comp(id, 20), Some(&vec![4]));
    assert_eq!(storage.get_comp(id, 30), None);
    assert_eq!(storage.get_comp(id + 1, 10), None);
}

#[test]
fn entities_of_one_composition_keep_their_own_rows() {
    let mut storage = CompStorage::new();
    let first = storage.create_entity(pending(vec![(10, vec![1]), (20, vec![2])]));
    let second = storage.create_entity(pending(vec![(20, vec![4]), (10, vec![3])]));
    assert_eq!(storage.get_comp(first, 10), Some(&vec![1]));
    assert_eq!(storage.get_comp(first, 20), Some(&vec![2]));
    assert_eq!(storage.get_comp(second, 10), Some(&vec![3]));
    assert_eq!(storage.get_comp(second, 20), Some(&vec![4]));
}

#[test]
fn composition_ids_are_stable_and_distinct() {
    let mut storage = CompStorage::new();
    let a = storage.get_composition_id(&vec![1, 2]);
    let b = storage.get_composition_id(&vec![2, 1]);
    let c = storage.get_composition_id(&vec![2]);
    let d = storage.get_composition_id(&vec![1, 2]);
    assert_eq!(a, 0);
    assert_eq!(a, b);
    assert_eq!(c, 1);
    assert_ne!(a, c);
    assert_eq!(d, a);
}

#[test]
fn deleting_a_dead_id_reports_nothing() {
    let mut storage = CompStorage::new();
    assert!(storage.delete_entity(17).is_none());
}

#[test]
fn structure_changes_create_in_order() {
    let mut storage = CompStorage::new();
    let changes = EntStructureChanges {
        new_entities: vec![pending(vec![(1, vec![10])]), pending(vec![(2, vec![20])])],
        deleted_entities: vec![0],
    };
    changes.apply(&mut storage);
    assert_eq!(storage.get_comp(2, 1), Some(&vec![10]));
    assert_eq!(storage.get_comp(3, 2), Some(&vec![20]));
    assert_eq!(storage.get_comp(2, 2), None);
}

#[test]
fn structure_changes_move_into_appends() {
    let mut first = EntStructureChanges { new_entities: vec![pending(vec![(1, vec![1])])], deleted_entities: vec![4] };
    let second = EntStructureChanges { new_entities: vec![pending(vec![(2, vec![2])])], deleted_entities: vec![5, 6] };
    second.move_into(&mut first);
    assert_eq!(first.new_entities.len(), 2);
    assert_eq!(first.new_entities[1].iter(), vec![(2, vec![2])]);
    assert_eq!(first.deleted_entities, vec![4, 5, 6]);
}

#[test]
fn registry_room_runs_out_and_comes_back() {
    let mut storage = GlorifiedHashMap::new();
    let e = InternalEntity { composition_id: 0, internal_index: 0 };
    assert!(storage.has_room());
    let id1 = storage.create_entity(e);
    assert!(storage.has_room());
    let _id2 = storage.create_entity(e);
    assert!(!storage.has_room());
    storage.delete(id1);
    assert!(storage.has_room());
}

#[test]
fn plan_creations_counts_free_slots_and_ids() {
    let mut storage = GlorifiedHashMap::new();
    assert_eq!(storage.plan_creations(2, 3), (true, true));
    assert_eq!(storage.plan_creations(1, 3), (true, false));
    assert_eq!(storage.plan_creations(3, 9), (false, false));
    let e = InternalEntity { composition_id: 0, internal_index: 0 };
    let id = storage.create_entity(e);
    assert_eq!(storage.plan_creations(1, 3), (true, true));
    storage.delete(id);
    assert_eq!(storage.plan_creations(1, id + MAX_ENTITIES), (true, true));
}

#[test]
fn comp_storage_liveness_and_room() {
    let mut storage = CompStorage::new();
    assert!(storage.has_room());
    assert!(!storage.is_live(2));
    let id = storage.create_entity(pending(vec![(1, vec![1])]));
    assert!(storage.is_live(id));
    assert!(!storage.is_live(id + MAX_ENTITIES));
}

#[test]
fn structure_changes_applicability() {
    let storage = CompStorage::new();
    let fine = EntStructureChanges { new_entities: vec![pending(vec![(1, vec![1])])], deleted_entities: vec![7] };
    assert!(fine.applicable_to(&storage));
    let empty_entity = EntStructureChanges { new_entities: vec![PendingEntity::new()], deleted_entities: vec![] };
    assert!(!empty_entity.applicable_to(&storage));
    let too_many = EntStructureChanges {
        new_entities: vec![pending(vec![(1, vec![1])]), pending(vec![(1, vec![2])]), pending(vec![(1, vec![3])])],
        deleted_entities: vec![],
    };
    assert!(!too_many.applicable_to(&storage));
    let deletes_new_one = EntStructureChanges { new_entities: vec![pending(vec![(1, vec![1])])], deleted_entities: vec![2] };
    assert!(!deletes_new_one.applicable_to(&storage));
}
