use poggy::super_vec::{SuperVec, SuperVecPortable};

const TEST_STRUCT_C: u64 = 3;

#[test]
fn super_vec_tests_test_ser_de() {
    // A value of three one-byte fields, as its bytes.
    let item: Vec<u8> = vec![3, 2, 5];
    let my_type = TEST_STRUCT_C;

    let mut my_vec = SuperVec::new(my_type, 3);
    my_vec.push(my_type, item.clone());

    let portable = my_vec.to_portable();
    let bytes = bincode::serialize(&(
        portable.item_size_when_deser,
        portable.data.clone(),
        portable.item_type_when_deser,
    ))
    .unwrap();
    let (size, data, item_type): (usize, Vec<Vec<u8>>, u64) = bincode::deserialize(bytes.as_slice()).unwrap();
    let reser = SuperVec::from_portable(SuperVecPortable {
        item_size_when_deser: size,
        data,
        item_type_when_deser: item_type,
    });

    let new_version = reser.get(my_type, 0).unwrap().to_vec();
    assert_eq!(item, new_version);
}

#[test]
fn push_then_get() {
    let mut v = SuperVec::new(9, 2);
    assert_eq!(v.item_type(), 9);
    assert_eq!(v.item_size(), 2);
    assert_eq!(v.len(), 0);
    assert_eq!(v.get(9, 0), None);
    v.push(9, vec![1, 2]);
    v.push(9, vec![3, 4]);
    assert_eq!(v.len(), 2);
    assert_eq!(v.get(9, 0), Some(&[1u8, 2][..]));
    assert_eq!(v.get(9, 1), Some(&[3u8, 4][..]));
    assert_eq!(v.get(9, 2), None);
    assert_eq!(v.get_as_bytes(1), &[3u8, 4][..]);
}

#[test]
fn portable_form_lists_each_item() {
    let mut v = SuperVec::new(4, 1);
    v.push(4, vec![7]);
    v.push(4, vec![8]);
    let p = v.to_portable();
    assert_eq!(p.item_size_when_deser, 1);
    assert_eq!(p.item_type_when_deser, 4);
    assert_eq!(p.data, vec![vec![7], vec![8]]);
    let back = SuperVec::from_portable(p);
    assert_eq!(back.len(), 2);
    assert_eq!(back.get(4, 1), Some(&[8u8][..]));
}

#[test]
fn clone_keeps_items() {
    let mut v = SuperVec::new(1, 3);
    v.push(1, vec![1, 1, 1]);
    let c = v.clone();
    v.push(1, vec![2, 2, 2]);
    assert_eq!(c.len(), 1);
    assert_eq!(c.get(1, 0), Some(&[1u8, 1, 1][..]));
    assert_eq!(v.len(), 2);
}
