use poggy::object_holder::{SerdeAnyMap, SerdeObject, TOH};

struct TestStruct {
    value_one: i32,
    list: Vec<u8>,
    value_two: u8,
}

impl SerdeObject for TestStruct {
    fn my_ser(&self) -> Vec<u8> {
        bincode::serialize(&(self.value_one, &self.list, self.value_two)).unwrap()
    }
}

struct TestStructGeneric<T: Clone> {
    value_one: i32,
    value_two: T,
}

impl SerdeObject for TestStructGeneric<f32> {
    fn my_ser(&self) -> Vec<u8> {
        bincode::serialize(&(self.value_one, self.value_two)).unwrap()
    }
}

const TEST_STRUCT: u64 = 0x0102_0304_0506_0708;
const TEST_STRUCT_GENERIC: u64 = 77;

/// The bytes a holder travels as inside a message: a byte string.
fn serialize_toh(toh: &TOH) -> Vec<u8> {
    bincode::serialize(&toh.to_bytes()).unwrap()
}

fn deserialize_toh(bytes: &[u8]) -> TOH {
    let inner: Vec<u8> = bincode::deserialize(bytes).unwrap();
    TOH::from_bytes(&inner)
}

#[test]
fn basic_serde_test() {
    let source_value = TestStruct { value_one: 6, list: vec![6, 1, 2, 1], value_two: 2 };
    let source_toh = TOH::new(TEST_STRUCT, source_value);

    let serialized = serialize_toh(&source_toh);

    println!("TOH TypeID: {}, deser {:?}", TEST_STRUCT, serialized);

    let mut deserialized = deserialize_toh(&serialized);
    let casted: (i32, Vec<u8>, u8) = bincode::deserialize(&deserialized.get(TEST_STRUCT)).unwrap();

    assert_eq!(casted.1, vec![6, 1, 2, 1]);
    assert_eq!(casted.0, 6);
    assert_eq!(casted.2, 2);
}

#[test]
fn generic_serde_test() {
    let float: f32 = 10.0;
    let source_value = TestStructGeneric { value_one: 6, value_two: float };
    let source_toh = TOH::new(TEST_STRUCT_GENERIC, source_value);

    let serialized = serialize_toh(&source_toh);

    let mut deserialized = deserialize_toh(&serialized);
    let casted: (i32, f32) = bincode::deserialize(&deserialized.get(TEST_STRUCT_GENERIC)).unwrap();

    assert_eq!(casted.0, 6);
    assert_eq!(casted.1, 10.0);
}

#[test]
fn holder_bytes_start_with_type_number_least_significant_first() {
    let toh = TOH::new(TEST_STRUCT, TestStruct { value_one: 1, list: vec![], value_two: 9 });
    let bytes = toh.to_bytes();
    assert_eq!(&bytes[0..8], &[8u8, 7, 6, 5, 4, 3, 2, 1][..]);
    assert_eq!(&bytes[8..], &[1u8, 0, 0, 0, 0, 0, 0, 0, 0, 0, 0, 0, 9][..]);
}

#[test]
fn holder_read_from_bytes_keeps_type_and_payload() {
    let bytes = vec![5u8, 1, 0, 0, 0, 0, 0, 0, 42, 43];
    let mut toh = TOH::from_bytes(&bytes);
    assert_eq!(toh.get(261), vec![42, 43]);
    assert_eq!(toh.get(261), vec![42, 43]);
    assert_eq!(toh.to_bytes(), bytes);
}

#[test]
fn holder_round_trip_through_bytes() {
    let toh = TOH::new(TEST_STRUCT_GENERIC, TestStructGeneric { value_one: -3, value_two: 0.5f32 });
    let mut clone = toh.clone();
    let mut back = TOH::from_bytes(&toh.to_bytes());
    assert_eq!(back.get(TEST_STRUCT_GENERIC), clone.get(TEST_STRUCT_GENERIC));
}

#[test]
fn any_map_insert_get_remove() {
    let mut map = SerdeAnyMap::new();
    assert!(!map.contains_key(TEST_STRUCT));
    assert_eq!(map.get_mut(TEST_STRUCT), None);
    map.insert(TEST_STRUCT, TestStruct { value_one: 2, list: vec![7], value_two: 1 });
    assert!(map.contains_key(TEST_STRUCT));
    let bytes = map.get_mut(TEST_STRUCT).unwrap();
    let value: (i32, Vec<u8>, u8) = bincode::deserialize(&bytes).unwrap();
    assert_eq!(value, (2, vec![7], 1));
    map.insert(TEST_STRUCT, TestStruct { value_one: 3, list: vec![], value_two: 0 });
    let replaced: (i32, Vec<u8>, u8) = bincode::deserialize(&map.get_mut(TEST_STRUCT).unwrap()).unwrap();
    assert_eq!(replaced.0, 3);
    map.remove(TEST_STRUCT);
    assert!(!map.contains_key(TEST_STRUCT));
}
