use datastore::datastore::Committed;
use datastore::error::StoreError;
use datastore::filesystem::key_path::{
    group_metadata, key_path_for_entry, strip_base, KeyPath, WalkEntry,
};
use datastore::filesystem::update::{
    parent_directory, plan_commit, read_file_for_key, CommitPlan, ReadOutcome,
};
use datastore::filesystem::{
    join_paths, leads_below, path_for, path_suffix, FilesystemDataStore,
};
use datastore::flat_map::FlatMap;
use datastore::key::{Key, KeyType};

fn file(path: &str) -> WalkEntry {
    WalkEntry { is_file: true, path: path.to_string() }
}

fn dir(path: &str) -> WalkEntry {
    WalkEntry { is_file: false, path: path.to_string() }
}

fn names(paths: &[KeyPath]) -> Vec<(String, Option<String>)> {
    paths
        .iter()
        .map(|p| {
            (
                p.data_key.as_str().to_string(),
                p.metadata_key.as_ref().map(|m| m.as_str().to_string()),
            )
        })
        .collect()
}

#[test]
fn data_path() {
    let f = FilesystemDataStore::new("/base");
    let key = Key::new(KeyType::Data, "a.b.c").unwrap();

    let pending = f.data_path(&key, Committed::Pending).unwrap();
    assert_eq!(pending, "/base/pending/a/b/c");

    let live = f.data_path(&key, Committed::Live).unwrap();
    assert_eq!(live, "/base/live/a/b/c");
}

#[test]
fn metadata_path() {
    let f = FilesystemDataStore::new("/base");
    let data_key = Key::new(KeyType::Data, "a.b.c").unwrap();
    let md_key = Key::new(KeyType::Meta, "my-metadata").unwrap();

    let pending = f.metadata_path(&md_key, &data_key, Committed::Pending).unwrap();
    assert_eq!(pending, "/base/pending/a/b/c.my-metadata");

    let live = f.metadata_path(&md_key, &data_key, Committed::Live).unwrap();
    assert_eq!(live, "/base/live/a/b/c.my-metadata");
}

#[test]
fn base_paths_follow_the_state() {
    let f = FilesystemDataStore::new("/base/");
    assert_eq!(f.base_path(Committed::Live), "/base/live");
    assert_eq!(f.base_path(Committed::Pending), "/base/pending");
}

#[test]
fn join_paths_follows_absolute_and_trailing_separator() {
    assert_eq!(join_paths("/base", "a/b"), "/base/a/b");
    assert_eq!(join_paths("/base/", "a/b"), "/base/a/b");
    assert_eq!(join_paths("", "a/b"), "a/b");
    assert_eq!(join_paths("/base", "/etc"), "/etc");
    assert_eq!(join_paths("/base", ""), "/base/");
}

#[test]
fn path_for_refuses_what_would_leave_the_base() {
    for name in ["", ".", "..", ".a", "a.", "a..b", "/etc", "a/", "a//b"] {
        match path_for("/base/live", name) {
            Err(StoreError::PathTraversal { name: refused }) => assert_eq!(refused, name),
            other => panic!("{:?}: unexpected {:?}", name, other),
        }
    }
    assert_eq!(path_for("/base/live", "a.b").unwrap(), "/base/live/a/b");
}

#[test]
fn path_suffix_replaces_every_separator() {
    assert_eq!(path_suffix("a.b.c"), "a/b/c");
    assert_eq!(path_suffix("abc"), "abc");
    assert_eq!(path_suffix(""), "");
    assert!(leads_below("a/b/c"));
    assert!(!leads_below("a/./c"));
    assert!(!leads_below("a/../c"));
}

#[test]
fn key_path_reads_data_and_metadata_keys() {
    let kp = KeyPath::new("settings/a/b").unwrap();
    assert_eq!(kp.data_key.as_str(), "settings.a.b");
    assert!(kp.metadata_key.is_none());
    assert_eq!(kp.key_type(), KeyType::Data);

    let kp = KeyPath::new("settings/a/b.meta1").unwrap();
    assert_eq!(kp.data_key.as_str(), "settings.a.b");
    assert_eq!(kp.metadata_key.as_ref().unwrap().as_str(), "meta1");
    assert_eq!(kp.key_type(), KeyType::Meta);

    match KeyPath::new("a/b.meta.more") {
        Err(StoreError::InvalidKey { name }) => assert_eq!(name, "meta.more"),
        other => panic!("unexpected: {:?}", other),
    }
    match KeyPath::new("a//b") {
        Err(StoreError::InvalidKey { name }) => assert_eq!(name, "a..b"),
        other => panic!("unexpected: {:?}", other),
    }
    assert!(KeyPath::new("").is_err());
}

#[test]
fn key_path_reverses_the_path_of_a_key() {
    let f = FilesystemDataStore::new("/base");
    let data_key = Key::new(KeyType::Data, "a.b-c.d_e").unwrap();
    let md_key = Key::new(KeyType::Meta, "m1").unwrap();
    let path = f.metadata_path(&md_key, &data_key, Committed::Live).unwrap();
    let rel = strip_base(&path, f.base_path(Committed::Live)).unwrap();
    let kp = KeyPath::new(&rel).unwrap();
    assert_eq!(kp.data_key.as_str(), "a.b-c.d_e");
    assert_eq!(kp.metadata_key.unwrap().as_str(), "m1");
}

#[test]
fn strip_base_is_by_whole_parts() {
    assert_eq!(strip_base("/base/live/a/b", "/base/live"), Some("a/b".to_string()));
    assert_eq!(strip_base("/base/live/a/b", "/base/live/"), Some("a/b".to_string()));
    assert_eq!(strip_base("/base/live", "/base/live"), Some("".to_string()));
    assert_eq!(strip_base("/base/livelier/a", "/base/live"), None);
    assert_eq!(strip_base("/other/a", "/base/live"), None);
}

#[test]
fn entries_that_are_no_keys_are_passed_over() {
    assert!(key_path_for_entry(&dir("/b/live/a"), "/b/live").unwrap().is_none());
    assert!(key_path_for_entry(&file("/b/live/a b"), "/b/live").unwrap().is_none());
    assert!(key_path_for_entry(&file("/b/live/a.m.x"), "/b/live").unwrap().is_none());
    let kp = key_path_for_entry(&file("/b/live/a/b"), "/b/live").unwrap().unwrap();
    assert_eq!(kp.data_key.as_str(), "a.b");
    match key_path_for_entry(&file("/elsewhere/a"), "/b/live") {
        Err(StoreError::Path { path, base }) => {
            assert_eq!(path, "/elsewhere/a");
            assert_eq!(base, "/b/live");
        }
        other => panic!("unexpected: {:?}", other),
    }
}

#[test]
fn find_populated_key_paths_filters_by_kind_and_prefix() {
    let f = FilesystemDataStore::new("/b");
    let entries = vec![
        dir("/b/live"),
        dir("/b/live/x"),
        file("/b/live/x/1"),
        file("/b/live/x/1.meta"),
        file("/b/live/x/2"),
        file("/b/live/y/3"),
        file("/b/live/x/not a key"),
        file("/b/live/x/1"),
    ];
    let data = f
        .find_populated_key_paths(true, &entries, KeyType::Data, "x.", Committed::Live)
        .unwrap();
    assert_eq!(
        names(&data),
        vec![("x.1".to_string(), None), ("x.2".to_string(), None)]
    );
    let meta = f
        .find_populated_key_paths(true, &entries, KeyType::Meta, "", Committed::Live)
        .unwrap();
    assert_eq!(names(&meta), vec![("x.1".to_string(), Some("meta".to_string()))]);
    let keys = f.list_populated_keys(true, &entries, "", Committed::Live).unwrap();
    let listed: Vec<&str> = keys.iter().map(|k| k.as_str()).collect();
    assert_eq!(listed, vec!["x.1", "x.2", "y.3"]);
}

#[test]
fn missing_base_directory() {
    let f = FilesystemDataStore::new("/b");
    let none: Vec<WalkEntry> = Vec::new();
    match f.find_populated_key_paths(false, &none, KeyType::Data, "", Committed::Live) {
        Err(StoreError::Corruption { msg, path }) => {
            assert_eq!(msg, "Live datastore missing");
            assert_eq!(path, "/b/live");
        }
        other => panic!("unexpected: {:?}", other),
    }
    let pending = f
        .find_populated_key_paths(false, &none, KeyType::Data, "", Committed::Pending)
        .unwrap();
    assert!(pending.is_empty());
}

#[test]
fn metadata_is_grouped_by_data_key() {
    let f = FilesystemDataStore::new("/b");
    let entries = vec![
        file("/b/live/x/1.one"),
        file("/b/live/y/3.two"),
        file("/b/live/x/1.two"),
        file("/b/live/x/1"),
        file("/b/live/x/2.two"),
    ];
    let all = f.list_populated_metadata(true, &entries, "", &None).unwrap();
    let listed: Vec<(String, Vec<String>)> = all
        .iter()
        .map(|g| {
            (
                g.data_key.as_str().to_string(),
                g.metadata_keys.iter().map(|m| m.as_str().to_string()).collect(),
            )
        })
        .collect();
    assert_eq!(
        listed,
        vec![
            ("x.1".to_string(), vec!["one".to_string(), "two".to_string()]),
            ("y.3".to_string(), vec!["two".to_string()]),
            ("x.2".to_string(), vec!["two".to_string()]),
        ]
    );
    let only = f
        .list_populated_metadata(true, &entries, "x.", &Some("one".to_string()))
        .unwrap();
    assert_eq!(only.len(), 1);
    assert_eq!(only[0].data_key.as_str(), "x.1");
    assert_eq!(only[0].metadata_keys.len(), 1);
}

#[test]
fn grouping_needs_metadata_keys() {
    let paths = vec![KeyPath::new("a/b").unwrap()];
    match group_metadata(paths, &None) {
        Err(StoreError::Internal { msg }) => {
            assert_eq!(msg, "Found meta key path with no dot: a.b")
        }
        other => panic!("unexpected: {:?}", other),
    }
}

#[test]
fn commit_plan_for_no_pending_keys_is_nothing() {
    assert!(matches!(plan_commit(&FlatMap::new()).unwrap(), CommitPlan::Nothing));
}

#[test]
fn commit_plan_promotes_all_pending_keys() {
    let mut pending = FlatMap::new();
    pending.insert("settings.x.1".to_string(), "a".to_string());
    pending.insert("settings.x.2".to_string(), "b".to_string());
    match plan_commit(&pending).unwrap() {
        CommitPlan::Promote { keys } => {
            let listed: Vec<&str> = keys.iter().map(|k| k.as_str()).collect();
            assert_eq!(listed, vec!["settings.x.1", "settings.x.2"]);
        }
        other => panic!("unexpected: {:?}", other),
    }
}

#[test]
fn commit_plan_refuses_an_invalid_key() {
    let mut pending = FlatMap::new();
    pending.insert("settings.ok".to_string(), "a".to_string());
    pending.insert("settings..bad".to_string(), "b".to_string());
    match plan_commit(&pending) {
        Err(StoreError::InvalidKey { name }) => assert_eq!(name, "settings..bad"),
        other => panic!("unexpected: {:?}", other),
    }
}

#[test]
fn missing_file_is_an_absent_value() {
    let key = Key::new(KeyType::Data, "a.b").unwrap();
    assert_eq!(read_file_for_key(&key, ReadOutcome::NotFound).unwrap(), None);
    assert_eq!(
        read_file_for_key(&key, ReadOutcome::Found("1".to_string())).unwrap(),
        Some("1".to_string())
    );
    match read_file_for_key(&key, ReadOutcome::Failed("denied".to_string())) {
        Err(StoreError::KeyRead { key, reason }) => {
            assert_eq!(key, "a.b");
            assert_eq!(reason, "denied");
        }
        other => panic!("unexpected: {:?}", other),
    }
}

#[test]
fn parent_directory_of_a_file_path() {
    assert_eq!(parent_directory("/base/live/a/b").unwrap(), "/base/live/a");
    assert_eq!(parent_directory("/a").unwrap(), "/");
    assert_eq!(parent_directory("a").unwrap(), "");
    for path in ["", "/", "a/b/"] {
        match parent_directory(path) {
            Err(StoreError::Internal { msg }) => {
                assert_eq!(msg, format!("Given path to write without proper prefix: {}", path))
            }
            other => panic!("unexpected: {:?}", other),
        }
    }
}
