use datastore::datastore::{Committed, DataStore};
use datastore::error::StoreError;
use datastore::flat_map::FlatMap;
use datastore::key::{Key, KeyType};
use datastore::memory::MemoryDataStore;

fn flat(pairs: &[(&str, &str)]) -> FlatMap {
    let mut map = FlatMap::new();
    for (key, value) in pairs {
        map.insert(key.to_string(), value.to_string());
    }
    map
}

fn entries(map: &FlatMap) -> Vec<(String, String)> {
    let mut all: Vec<(String, String)> = (0..map.len())
        .map(|i| (map.key_at(i).clone(), map.value_at(i).clone()))
        .collect();
    all.sort();
    all
}

fn pairs(list: &[(&str, &str)]) -> Vec<(String, String)> {
    let mut all: Vec<(String, String)> =
        list.iter().map(|(k, v)| (k.to_string(), v.to_string())).collect();
    all.sort();
    all
}

fn sorted_names(keys: &[Key]) -> Vec<String> {
    let mut names: Vec<String> = keys.iter().map(|k| k.as_str().to_string()).collect();
    names.sort();
    names
}

#[test]
fn set_keys() {
    let mut m = MemoryDataStore::new();

    let k1 = Key::new(KeyType::Data, "memtest1").unwrap();
    let k2 = Key::new(KeyType::Data, "memtest2").unwrap();
    let v1 = "memvalue1".to_string();
    let v2 = "memvalue2".to_string();
    let data = flat(&[(k1.as_str(), &v1), (k2.as_str(), &v2)]);

    m.set_keys(&data, Committed::Pending).unwrap();

    assert_eq!(m.get_key(&k1, Committed::Pending).unwrap(), Some(v1));
    assert_eq!(m.get_key(&k2, Committed::Pending).unwrap(), Some(v2));
}

#[test]
fn get_metadata_inheritance() {
    let mut m = MemoryDataStore::new();

    let meta = Key::new(KeyType::Meta, "mymeta").unwrap();
    let parent = Key::new(KeyType::Data, "a").unwrap();
    let grandchild = Key::new(KeyType::Data, "a.b.c").unwrap();

    // Set metadata on parent
    m.set_metadata(&meta, &parent, "value").unwrap();
    // Metadata shows up on grandchild...
    assert_eq!(
        m.get_metadata(&meta, &grandchild).unwrap(),
        Some("value".to_string())
    );
    // ...but only through inheritance, not directly.
    assert_eq!(m.get_metadata_raw(&meta, &grandchild).unwrap(), None);
}

#[test]
fn get_prefix() {
    let mut m = MemoryDataStore::new();
    let data = flat(&[("x.1", "x1"), ("x.2", "x2"), ("y.3", "y3")]);
    m.set_keys(&data, Committed::Pending).unwrap();

    assert_eq!(
        entries(&m.get_prefix("x.", Committed::Pending).unwrap()),
        pairs(&[("x.1", "x1"), ("x.2", "x2")])
    );
}

#[test]
fn get_metadata_prefix() {
    let mut m = MemoryDataStore::new();

    // Build some data keys to which we can attach metadata; they don't actually have to be
    // set in the data store.
    let k1 = Key::new(KeyType::Data, "x.1").unwrap();
    let k2 = Key::new(KeyType::Data, "x.2").unwrap();
    let k3 = Key::new(KeyType::Data, "y.3").unwrap();

    // Set some metadata to check
    let mk1 = Key::new(KeyType::Meta, "metatest1").unwrap();
    let mk2 = Key::new(KeyType::Meta, "metatest2").unwrap();
    let mk3 = Key::new(KeyType::Meta, "metatest3").unwrap();
    m.set_metadata(&mk1, &k1, "41").unwrap();
    m.set_metadata(&mk2, &k2, "42").unwrap();
    m.set_metadata(&mk3, &k3, "43").unwrap();

    // Check all metadata
    let mut all: Vec<(String, Vec<(String, String)>)> = m
        .get_metadata_prefix("x.", &None)
        .unwrap()
        .iter()
        .map(|e| (e.data_key.as_str().to_string(), entries(&e.values)))
        .collect();
    all.sort();
    assert_eq!(
        all,
        vec![
            ("x.1".to_string(), pairs(&[("metatest1", "41")])),
            ("x.2".to_string(), pairs(&[("metatest2", "42")])),
        ]
    );

    // Check metadata matching a given name
    let named: Vec<(String, Vec<(String, String)>)> = m
        .get_metadata_prefix("x.", &Some("metatest2".to_string()))
        .unwrap()
        .iter()
        .map(|e| (e.data_key.as_str().to_string(), entries(&e.values)))
        .collect();
    assert_eq!(named, vec![("x.2".to_string(), pairs(&[("metatest2", "42")]))]);
}

#[test]
fn nearest_ancestor_wins_inheritance() {
    let mut m = MemoryDataStore::new();
    let meta = Key::new(KeyType::Meta, "mymeta").unwrap();
    let a = Key::new(KeyType::Data, "a").unwrap();
    let ab = Key::new(KeyType::Data, "a.b").unwrap();
    let abc = Key::new(KeyType::Data, "a.b.c").unwrap();
    let abx = Key::new(KeyType::Data, "a.bx").unwrap();
    m.set_metadata(&meta, &a, "far").unwrap();
    m.set_metadata(&meta, &ab, "near").unwrap();
    assert_eq!(m.get_metadata(&meta, &abc).unwrap(), Some("near".to_string()));
    assert_eq!(m.get_metadata(&meta, &ab).unwrap(), Some("near".to_string()));
    assert_eq!(m.get_metadata(&meta, &a).unwrap(), Some("far".to_string()));
    // `a.bx` is no descendant of `a.b`, though its name starts with it.
    assert_eq!(m.get_metadata(&meta, &abx).unwrap(), Some("far".to_string()));
}

#[test]
fn descendant_metadata_is_not_inherited_upwards() {
    let mut m = MemoryDataStore::new();
    let meta = Key::new(KeyType::Meta, "mymeta").unwrap();
    let a = Key::new(KeyType::Data, "a").unwrap();
    let abc = Key::new(KeyType::Data, "a.b.c").unwrap();
    m.set_metadata(&meta, &abc, "value").unwrap();
    assert_eq!(m.get_metadata(&meta, &a).unwrap(), None);
    assert_eq!(m.get_metadata(&meta, &abc).unwrap(), Some("value".to_string()));
}

#[test]
fn commit_promotes_pending_keys() {
    let mut m = MemoryDataStore::new();
    m.set_keys(&flat(&[("x.1", "a"), ("x.2", "b")]), Committed::Pending).unwrap();
    let promoted = m.commit().unwrap();
    assert_eq!(sorted_names(&promoted), vec!["x.1", "x.2"]);
    let k1 = Key::new(KeyType::Data, "x.1").unwrap();
    let k2 = Key::new(KeyType::Data, "x.2").unwrap();
    assert_eq!(m.get_key(&k1, Committed::Live).unwrap(), Some("a".to_string()));
    assert_eq!(m.get_key(&k2, Committed::Live).unwrap(), Some("b".to_string()));
    assert!(m.list_populated_keys("", Committed::Pending).unwrap().is_empty());
    assert_eq!(m.get_key(&k1, Committed::Pending).unwrap(), None);
}

#[test]
fn commit_without_pending_keys_changes_nothing() {
    let mut m = MemoryDataStore::new();
    let k = Key::new(KeyType::Data, "x.1").unwrap();
    m.set_key(&k, "live", Committed::Live).unwrap();
    let promoted = m.commit().unwrap();
    assert!(promoted.is_empty());
    assert_eq!(m.get_key(&k, Committed::Live).unwrap(), Some("live".to_string()));
    assert_eq!(sorted_names(&m.list_populated_keys("", Committed::Live).unwrap()), vec!["x.1"]);
}

#[test]
fn commit_overwrites_live_with_pending() {
    let mut m = MemoryDataStore::new();
    let k = Key::new(KeyType::Data, "x.1").unwrap();
    let other = Key::new(KeyType::Data, "y").unwrap();
    m.set_key(&k, "old", Committed::Live).unwrap();
    m.set_key(&other, "kept", Committed::Live).unwrap();
    m.set_key(&k, "new", Committed::Pending).unwrap();
    m.commit().unwrap();
    assert_eq!(m.get_key(&k, Committed::Live).unwrap(), Some("new".to_string()));
    assert_eq!(m.get_key(&other, Committed::Live).unwrap(), Some("kept".to_string()));
}

#[test]
fn set_keys_stops_at_an_invalid_key() {
    let mut m = MemoryDataStore::new();
    let r = m.set_keys(&flat(&[("ok", "1"), ("not ok", "2"), ("later", "3")]), Committed::Pending);
    match r {
        Err(StoreError::InvalidKey { name }) => assert_eq!(name, "not ok"),
        other => panic!("unexpected: {:?}", other),
    }
    assert_eq!(
        sorted_names(&m.list_populated_keys("", Committed::Pending).unwrap()),
        vec!["ok"]
    );
}

#[test]
fn key_populated_and_last_write_wins() {
    let mut m = MemoryDataStore::new();
    let k = Key::new(KeyType::Data, "a.b").unwrap();
    assert!(!m.key_populated(&k, Committed::Pending).unwrap());
    m.set_key(&k, "1", Committed::Pending).unwrap();
    m.set_key(&k, "2", Committed::Pending).unwrap();
    assert!(m.key_populated(&k, Committed::Pending).unwrap());
    assert!(!m.key_populated(&k, Committed::Live).unwrap());
    assert_eq!(m.get_key(&k, Committed::Pending).unwrap(), Some("2".to_string()));
}

#[test]
fn list_populated_metadata_filters_by_prefix_and_name() {
    let mut m = MemoryDataStore::new();
    let d1 = Key::new(KeyType::Data, "x.1").unwrap();
    let d2 = Key::new(KeyType::Data, "y.1").unwrap();
    let m1 = Key::new(KeyType::Meta, "one").unwrap();
    let m2 = Key::new(KeyType::Meta, "two").unwrap();
    m.set_metadata(&m1, &d1, "a").unwrap();
    m.set_metadata(&m2, &d1, "b").unwrap();
    m.set_metadata(&m2, &d2, "c").unwrap();
    let all = m.list_populated_metadata("x.", &None).unwrap();
    assert_eq!(all.len(), 1);
    assert_eq!(all[0].data_key.as_str(), "x.1");
    assert_eq!(sorted_names(&all[0].metadata_keys), vec!["one", "two"]);
    let only_one = m.list_populated_metadata("", &Some("one".to_string())).unwrap();
    assert_eq!(only_one.len(), 1);
    assert_eq!(only_one[0].data_key.as_str(), "x.1");
    assert_eq!(sorted_names(&only_one[0].metadata_keys), vec!["one"]);
}
