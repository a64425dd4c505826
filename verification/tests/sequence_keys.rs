use typed_tree::db::{get_last, set_to_tree};
use typed_tree::keys::sequence_key;
use typed_tree::store::StoreTree;

fn temp_store() -> (sled::Db, StoreTree) {
    let db = sled::Config::new().temporary(true).open().unwrap();
    let handle = db.open_tree("records").unwrap();
    (db, StoreTree::new(handle))
}

#[test]
fn sequence_key_is_fixed_width_zero_padded_decimal() {
    assert_eq!(sequence_key(0), "00000000000000000000");
    assert_eq!(sequence_key(9), "00000000000000000009");
    assert_eq!(sequence_key(10), "00000000000000000010");
    assert_eq!(sequence_key(12345), "00000000000000012345");
    assert_eq!(sequence_key(u64::MAX), "18446744073709551615");
}

#[test]
fn sequence_keys_make_get_last_numeric() {
    let (_db, mut tree) = temp_store();
    // Under plain decimal keys "10" would sort before "9"; the
    // fixed-width encoding keeps numeric and lexicographic order equal.
    typed_tree::db::set(&mut tree, &sequence_key(9), &9u64).unwrap();
    typed_tree::db::set(&mut tree, &sequence_key(10), &10u64).unwrap();
    typed_tree::db::set(&mut tree, &sequence_key(2), &2u64).unwrap();
    let (k, v): (String, u64) = get_last(&tree).unwrap();
    assert_eq!(k, sequence_key(10));
    assert_eq!(v, 10);
}

#[test]
fn sequence_key_orders_across_magnitudes() {
    let mut keys: Vec<String> = vec![
        sequence_key(u64::MAX),
        sequence_key(1),
        sequence_key(0),
        sequence_key(99),
        sequence_key(100),
        sequence_key(10_000_000_000),
    ];
    let mut sorted = keys.clone();
    sorted.sort();
    keys.sort_by_key(|k| k.parse::<u128>().unwrap());
    assert_eq!(keys, sorted);
}

#[test]
fn raw_bytes_of_sequence_key_are_ascii_digits() {
    let (_db, mut tree) = temp_store();
    let key = sequence_key(7);
    set_to_tree(&mut tree, &key, vec![1u8]).unwrap();
    let pairs = typed_tree::db::get_all_from_tree(&tree).unwrap();
    assert_eq!(pairs.len(), 1);
    assert_eq!(pairs[0].0, key.as_bytes().to_vec());
}
