use live::holder::HoldError;
use live::holder::HoldEvent;
use live::holder::Store;
use live::holder::UnloadPolicy;
use live::keymap::KeyMap;

#[test]
fn test_store_insert_get() {
    let mut store = Store::<i32>::new();
    store.insert(
        "key".to_string(),
        42,
        String::from("test"),
        UnloadPolicy::default(),
    );

    assert_eq!(*store.get("key").unwrap(), 42);
}

#[test]
fn test_store_remove() {
    let mut store = Store::<i32>::new();
    store.insert(
        "key".to_string(),
        42,
        String::from("test"),
        UnloadPolicy::Removable,
    );

    store.remove("key").unwrap();
    assert!(store.get("key").is_none());
}

#[test]
fn test_store_persistent() {
    let mut store = Store::<i32>::new();
    store.insert(
        "key".to_string(),
        42,
        String::from("test"),
        UnloadPolicy::Persistent,
    );

    let err = store.remove("key").unwrap_err();
    match err {
        HoldError::PersistentRemoval { .. } => (),
        _ => panic!("Expected PersistentRemoval error"),
    }
    assert_eq!(*store.get("key").unwrap(), 42);
}

#[test]
fn test_store_versions_strictly_increase() {
    let mut store = Store::<i32>::new();
    store.insert("a".to_string(), 1, String::from("a"), UnloadPolicy::Removable);
    store.insert("b".to_string(), 2, String::from("b"), UnloadPolicy::Removable);
    store.insert("a".to_string(), 3, String::from("a"), UnloadPolicy::Removable);
    assert_eq!(store.get_meta("b").unwrap().version, 2);
    assert_eq!(store.get_meta("a").unwrap().version, 3);
}

#[test]
fn test_store_replace_all_retains_persistent() {
    // Insert k1 removable and k2 persistent, then replace everything
    // with a single k3: k1 drops, k2 survives, k3 arrives.
    let mut store = Store::<i32>::new();
    store.insert("k1".to_string(), 1, String::from("k1"), UnloadPolicy::Removable);
    store.insert("k2".to_string(), 2, String::from("k2"), UnloadPolicy::Persistent);
    let _ = store.take_events();

    let mut entries: KeyMap<(i32, String, UnloadPolicy)> = KeyMap::new();
    entries.insert(
        "k3".to_string(),
        (3, String::from("k3"), UnloadPolicy::Removable),
    );
    store.replace_all(entries);

    assert!(store.get("k1").is_none());
    assert_eq!(*store.get("k2").unwrap(), 2);
    assert_eq!(*store.get("k3").unwrap(), 3);
    assert_eq!(store.len(), 2);

    let events = store.take_events();
    assert_eq!(events.len(), 3);
    let mut saw_loaded_k3 = false;
    let mut saw_removed_k1 = false;
    let mut saw_retained_k2 = false;
    for ev in &events {
        match ev {
            HoldEvent::Loaded { key, value, .. } => {
                assert_eq!(key, "k3");
                assert_eq!(**value, 3);
                saw_loaded_k3 = true;
            }
            HoldEvent::Removed { key, value } => {
                assert_eq!(key, "k1");
                assert_eq!(**value, 1);
                saw_removed_k1 = true;
            }
            HoldEvent::Retained { key, error } => {
                assert_eq!(key, "k2");
                match error {
                    HoldError::PersistentRemoval { key } => assert_eq!(key, "k2"),
                    _ => panic!("Expected PersistentRemoval"),
                }
                saw_retained_k2 = true;
            }
            HoldEvent::Updated { .. } => panic!("no update expected"),
        }
    }
    assert!(saw_loaded_k3 && saw_removed_k1 && saw_retained_k2);
}

#[test]
fn test_store_remove_missing_is_not_found() {
    let mut store = Store::<i32>::new();
    match store.remove("missing") {
        Err(HoldError::NotFound { key }) => assert_eq!(key, "missing"),
        _ => panic!("Expected NotFound"),
    }
}

#[test]
fn test_store_sync_with() {
    let mut store = Store::<i32>::new();
    store.insert("old".to_string(), 1, String::from("old"), UnloadPolicy::Removable);
    store.insert("kept".to_string(), 2, String::from("kept"), UnloadPolicy::Persistent);

    let fs_keys = vec!["new".to_string(), "bad".to_string(), "kept".to_string()];
    let result = store.sync_with(fs_keys, |key: &str| {
        if key == "new" {
            Ok((10, String::from("new"), UnloadPolicy::Removable))
        } else {
            Err("load failed")
        }
    });

    assert_eq!(result.added, vec!["new".to_string()]);
    assert_eq!(result.failed.len(), 1);
    assert_eq!(result.failed[0].0, "bad");
    assert_eq!(result.removed, vec!["old".to_string()]);
    assert_eq!(result.retained.len(), 0);
    assert_eq!(*store.get("new").unwrap(), 10);
    assert_eq!(*store.get("kept").unwrap(), 2);
    assert!(store.get("old").is_none());
}

#[test]
fn test_store_error_messages() {
    let not_found = HoldError::NotFound { key: "k".to_string() };
    assert_eq!(not_found.message(), "key not found: k");
    let persistent = HoldError::PersistentRemoval { key: "k".to_string() };
    assert_eq!(persistent.message(), "cannot remove persistent config: k");
    let raced = HoldError::ConcurrentlyRemoved { key: "k".to_string() };
    assert_eq!(raced.message(), "key was concurrently removed: k");
}
