use datastore::key::{Key, KeyType};

#[test]
fn data_key_accepts_dotted_names() {
    let key = Key::new(KeyType::Data, "a.b.c").unwrap();
    assert_eq!(key.as_str(), "a.b.c");
    assert_eq!(key.key_type(), KeyType::Data);
}

#[test]
fn data_key_rejects_malformed_names() {
    for name in ["", ".", "a.", ".a", "a..b", "a/b", "../etc", "a b", "a.b/../c", "é"] {
        assert!(Key::new(KeyType::Data, name).is_err(), "{:?}", name);
    }
}

#[test]
fn meta_key_is_a_single_segment() {
    assert!(Key::new(KeyType::Meta, "my-metadata_1").is_ok());
    assert!(Key::new(KeyType::Meta, "a.b").is_err());
    assert!(Key::new(KeyType::Meta, "").is_err());
}

#[test]
fn keys_are_equal_by_name() {
    let a = Key::new(KeyType::Data, "abc").unwrap();
    let b = Key::new(KeyType::Meta, "abc").unwrap();
    let c = Key::new(KeyType::Data, "abd").unwrap();
    assert!(a == b);
    assert!(a != c);
    assert!(a.clone() == a);
}
