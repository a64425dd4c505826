use typed_tree::codec::Percent;
use typed_tree::db::{delete, get, get_all, get_all_from_tree, get_from_tree, get_last,
    get_last_from_tree, set_to_tree};
use typed_tree::errors::DatabaseError;
use typed_tree::store::StoreTree;

fn temp_store() -> (sled::Db, StoreTree) {
    let db = sled::Config::new().temporary(true).open().unwrap();
    let handle = db.open_tree("records").unwrap();
    (db, StoreTree::new(handle))
}

fn temp_store_with_raw_handle() -> (sled::Db, sled::Tree, StoreTree) {
    let db = sled::Config::new().temporary(true).open().unwrap();
    let handle = db.open_tree("records").unwrap();
    let raw = handle.clone();
    (db, raw, StoreTree::new(handle))
}

#[test]
fn round_trip_u64() {
    let (_db, mut tree) = temp_store();
    typed_tree::db::set(&mut tree, "answer", &42u64).unwrap();
    let v: u64 = get(&tree, "answer").unwrap();
    assert_eq!(v, 42);
}

#[test]
fn round_trip_percent() {
    let (_db, mut tree) = temp_store();
    typed_tree::db::set(&mut tree, "progress", &Percent { value: 73 }).unwrap();
    let p: Percent = get(&tree, "progress").unwrap();
    assert_eq!(p, Percent { value: 73 });
}

#[test]
fn overwrite_is_unconditional() {
    let (_db, mut tree) = temp_store();
    typed_tree::db::set(&mut tree, "k", &1u64).unwrap();
    typed_tree::db::set(&mut tree, "k", &2u64).unwrap();
    let v: u64 = get(&tree, "k").unwrap();
    assert_eq!(v, 2);
}

#[test]
fn get_absent_key_not_found() {
    let (_db, tree) = temp_store();
    let r: Result<u64, DatabaseError> = get(&tree, "never-written");
    assert!(matches!(r, Err(DatabaseError::NotFound)));
}

#[test]
fn delete_absent_key_not_found() {
    let (_db, mut tree) = temp_store();
    let r = delete(&mut tree, "never-written");
    assert!(matches!(r, Err(DatabaseError::NotFound)));
}

#[test]
fn set_never_fails_with_not_found() {
    let (_db, mut tree) = temp_store();
    let r = typed_tree::db::set(&mut tree, "fresh-key", &5u64);
    assert!(r.is_ok());
}

#[test]
fn delete_then_get_not_found() {
    let (_db, mut tree) = temp_store();
    typed_tree::db::set(&mut tree, "k", &9u64).unwrap();
    delete(&mut tree, "k").unwrap();
    let r: Result<u64, DatabaseError> = get(&tree, "k");
    assert!(matches!(r, Err(DatabaseError::NotFound)));
}

#[test]
fn delete_twice_second_not_found() {
    let (_db, mut tree) = temp_store();
    typed_tree::db::set(&mut tree, "k", &9u64).unwrap();
    delete(&mut tree, "k").unwrap();
    let r = delete(&mut tree, "k");
    assert!(matches!(r, Err(DatabaseError::NotFound)));
}

#[test]
fn get_last_returns_greatest_key_insertion_order_ascending() {
    let (_db, mut tree) = temp_store();
    typed_tree::db::set(&mut tree, "a", &1u64).unwrap();
    typed_tree::db::set(&mut tree, "b", &2u64).unwrap();
    let (k, v): (String, u64) = get_last(&tree).unwrap();
    assert_eq!(k, "b");
    assert_eq!(v, 2);
}

#[test]
fn get_last_returns_greatest_key_insertion_order_descending() {
    let (_db, mut tree) = temp_store();
    typed_tree::db::set(&mut tree, "b", &2u64).unwrap();
    typed_tree::db::set(&mut tree, "a", &1u64).unwrap();
    let (k, v): (String, u64) = get_last(&tree).unwrap();
    assert_eq!(k, "b");
    assert_eq!(v, 2);
}

#[test]
fn get_last_is_lexicographic_not_numeric() {
    let (_db, mut tree) = temp_store();
    typed_tree::db::set(&mut tree, "9", &9u64).unwrap();
    typed_tree::db::set(&mut tree, "10", &10u64).unwrap();
    let (k, v): (String, u64) = get_last(&tree).unwrap();
    assert_eq!(k, "9");
    assert_eq!(v, 9);
}

#[test]
fn get_last_on_empty_tree_not_found() {
    let (_db, tree) = temp_store();
    let r: Result<(String, u64), DatabaseError> = get_last(&tree);
    assert!(matches!(r, Err(DatabaseError::NotFound)));
}

#[test]
fn get_all_on_empty_tree_is_empty_not_an_error() {
    let (_db, tree) = temp_store();
    let all: Vec<(String, u64)> = get_all(&tree).unwrap();
    assert!(all.is_empty());
}

#[test]
fn get_all_returns_every_record_in_ascending_key_order() {
    let (_db, mut tree) = temp_store();
    typed_tree::db::set(&mut tree, "b", &2u64).unwrap();
    typed_tree::db::set(&mut tree, "c", &3u64).unwrap();
    typed_tree::db::set(&mut tree, "a", &1u64).unwrap();
    let all: Vec<(String, u64)> = get_all(&tree).unwrap();
    assert_eq!(
        all,
        vec![("a".to_string(), 1), ("b".to_string(), 2), ("c".to_string(), 3)]
    );
}

#[test]
fn get_all_aborts_whole_batch_on_one_corrupt_value() {
    let (_db, mut tree) = temp_store();
    typed_tree::db::set(&mut tree, "good", &1u64).unwrap();
    set_to_tree(&mut tree, "corrupt", vec![1u8, 2, 3]).unwrap();
    let r: Result<Vec<(String, u64)>, DatabaseError> = get_all(&tree);
    assert!(matches!(r, Err(DatabaseError::Deserialize)));
}

#[test]
fn get_all_aborts_whole_batch_on_one_non_utf8_key() {
    let (_db, raw, mut tree) = temp_store_with_raw_handle();
    typed_tree::db::set(&mut tree, "good", &1u64).unwrap();
    raw.insert(&[0xffu8][..], &7u64.to_le_bytes()[..]).unwrap();
    let r: Result<Vec<(String, u64)>, DatabaseError> = get_all(&tree);
    assert!(matches!(r, Err(DatabaseError::Deserialize)));
}

#[test]
fn get_corrupt_value_deserialize() {
    let (_db, mut tree) = temp_store();
    set_to_tree(&mut tree, "corrupt", vec![1u8, 2, 3]).unwrap();
    let r: Result<u64, DatabaseError> = get(&tree, "corrupt");
    assert!(matches!(r, Err(DatabaseError::Deserialize)));
}

#[test]
fn get_last_non_utf8_key_deserialize() {
    let (_db, raw, tree) = temp_store_with_raw_handle();
    raw.insert(&[0xffu8][..], &7u64.to_le_bytes()[..]).unwrap();
    let r: Result<(String, u64), DatabaseError> = get_last(&tree);
    assert!(matches!(r, Err(DatabaseError::Deserialize)));
}

#[test]
fn serialize_failure_reports_serialize_and_leaves_prior_value() {
    let (_db, mut tree) = temp_store();
    typed_tree::db::set(&mut tree, "p", &Percent { value: 50 }).unwrap();
    let r = typed_tree::db::set(&mut tree, "p", &Percent { value: 200 });
    assert!(matches!(r, Err(DatabaseError::Serialize)));
    let p: Percent = get(&tree, "p").unwrap();
    assert_eq!(p, Percent { value: 50 });
}

#[test]
fn percent_boundary_encodes_up_to_one_hundred() {
    let (_db, mut tree) = temp_store();
    assert!(typed_tree::db::set(&mut tree, "full", &Percent { value: 100 }).unwrap() == ());
    let r = typed_tree::db::set(&mut tree, "over", &Percent { value: 101 });
    assert!(matches!(r, Err(DatabaseError::Serialize)));
}

#[test]
fn stored_bytes_are_the_little_endian_encoding() {
    let (_db, mut tree) = temp_store();
    typed_tree::db::set(&mut tree, "n", &0x0102030405060708u64).unwrap();
    let raw = get_from_tree(&tree, "n").unwrap();
    assert_eq!(raw, 0x0102030405060708u64.to_le_bytes().to_vec());
}

#[test]
fn raw_get_all_and_last_agree() {
    let (_db, mut tree) = temp_store();
    typed_tree::db::set(&mut tree, "a", &1u64).unwrap();
    typed_tree::db::set(&mut tree, "z", &26u64).unwrap();
    let pairs = get_all_from_tree(&tree).unwrap();
    assert_eq!(pairs.len(), 2);
    assert_eq!(pairs[0].0, b"a".to_vec());
    assert_eq!(pairs[1].0, b"z".to_vec());
    let (lk, lv) = get_last_from_tree(&tree).unwrap();
    assert_eq!(lk, b"z".to_vec());
    assert_eq!(lv, 26u64.to_le_bytes().to_vec());
}

#[test]
fn error_messages_describe_the_kind() {
    assert_eq!(DatabaseError::NotFound.message(), "No matches found");
    assert_eq!(
        DatabaseError::Get(sled::Error::Unsupported(String::from("probe"))).message(),
        "Could not get from database"
    );
    assert_eq!(
        DatabaseError::Serialize.message(),
        "Could not serialize binary data"
    );
    assert_eq!(
        DatabaseError::Deserialize.message(),
        "Could not deserialize binary data"
    );
}
