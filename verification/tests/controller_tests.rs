use live::controller::KeyPattern;
use live::controller::ListEntry;
use live::controller::Live;
use live::controller::LiveDir;
use live::controller::LiveError;
use live::controller::ScanMode;
use live::holder::Store;
use live::holder::UnloadPolicy;
use live::loader::format::AnyFormat;
use live::loader::DynLoader;
use live::loader::MemorySource;

#[derive(Debug, Clone, PartialEq)]
struct TestConfig {
    val: i64,
}

impl<'de> serde::de::Deserialize<'de> for TestConfig {
    fn deserialize<D: serde::de::Deserializer<'de>>(d: D) -> Result<Self, D::Error> {
        let v = serde_json::Value::deserialize(d)?;
        match v.get("val").and_then(serde_json::Value::as_i64) {
            Some(val) => Ok(TestConfig { val }),
            None => Err(serde::de::Error::custom("missing val")),
        }
    }
}

impl live::loader::PreProcess for TestConfig {}

impl live::loader::ValidateConfig for TestConfig {}

fn json_loader(entries: &[(&str, &[u8])]) -> DynLoader<MemorySource> {
    let mut source = MemorySource::new();
    for (key, bytes) in entries {
        source.insert(key, bytes.to_vec());
    }
    DynLoader::builder()
        .source(source)
        .format(AnyFormat::Json)
        .build()
        .unwrap()
}

fn file(name: &str) -> ListEntry {
    ListEntry { name: name.to_string(), is_file: true, is_dir: false }
}

fn subdir(name: &str) -> ListEntry {
    ListEntry { name: name.to_string(), is_file: false, is_dir: true }
}

#[test]
fn test_live_happy_load() {
    // File app.json = {"val": 1}: after load, the value is 1 and the
    // version is 1. The in-memory source recorded no canonical origin
    // for the key, so the origin falls back to the probe key itself.
    let loader = json_loader(&[("app.json", b"{\"val\": 1}")]);
    let mut live = Live::new(Store::<TestConfig>::new(), loader, "app");
    live.load().unwrap();
    assert_eq!(live.get().unwrap().val, 1);
    assert_eq!(live.version().unwrap(), 1);
    assert_eq!(live.origin().unwrap(), "app.json");
}

#[test]
fn test_live_origin_is_canonical_path() {
    // When the source captured a canonical path for the key, a load
    // stores that path as the entry's origin.
    let mut source = MemorySource::new();
    source.insert_with_origin("app.json", b"{\"val\": 1}".to_vec(), "/srv/conf/app.json");
    let loader = DynLoader::builder()
        .source(source)
        .format(AnyFormat::Json)
        .build()
        .unwrap();
    let mut live = Live::new(Store::<TestConfig>::new(), loader, "app");
    live.load().unwrap();
    assert_eq!(live.get().unwrap().val, 1);
    assert_eq!(live.origin().unwrap(), "/srv/conf/app.json");
}

#[test]
fn test_live_reload_picks_up_changes() {
    // After the source changes, a reload observes the new value and the
    // version advances to 2.
    let loader = json_loader(&[("app.json", b"{\"val\": 1}")]);
    let mut live = Live::new(Store::<TestConfig>::new(), loader, "app");
    live.load().unwrap();
    assert_eq!(live.get().unwrap().val, 1);

    let changed = json_loader(&[("app.json", b"{\"val\": 2}")]);
    live.replace_loader(changed);
    live.reload().unwrap();
    assert_eq!(live.get().unwrap().val, 2);
    assert_eq!(live.version().unwrap(), 2);
}

#[test]
fn test_live_load_twice_unchanged_source() {
    // Loading twice from an unchanged source keeps the value equal and
    // advances the version by exactly one per call.
    let loader = json_loader(&[("app.json", b"{\"val\": 7}")]);
    let mut live = Live::new(Store::<TestConfig>::new(), loader, "app");
    live.load().unwrap();
    let first = live.get().unwrap();
    assert_eq!(live.version().unwrap(), 1);
    live.load().unwrap();
    let second = live.get().unwrap();
    assert_eq!(live.version().unwrap(), 2);
    assert_eq!(*first, *second);
}

#[test]
fn test_live_not_found() {
    let loader = json_loader(&[]);
    let mut live = Live::new(Store::<TestConfig>::new(), loader, "missing");
    match live.load() {
        Err(LiveError::Load(live::loader::FmtError::NotFound)) => (),
        _ => panic!("Expected NotFound"),
    }
    assert!(live.get().is_none());
}

#[test]
fn test_live_builder_requires_fields() {
    match Live::<TestConfig, MemorySource>::builder().build() {
        Err(LiveError::Builder(msg)) => assert_eq!(msg, "store is required"),
        _ => panic!("Expected Builder error"),
    }
}

#[test]
fn test_live_dir_files_mode() {
    let loader = json_loader(&[
        ("app.json", b"{\"val\": 1}"),
        ("db.json", b"{\"val\": 2}"),
        ("cache.json", b"{\"val\": 3}"),
    ]);
    let mut live_dir = LiveDir::builder()
        .store(Store::<TestConfig>::new())
        .loader(loader)
        .path("conf")
        .pattern(KeyPattern::Identity)
        .scan_mode(ScanMode::Files)
        .build()
        .unwrap();

    let listing = vec![file("app.json"), file("db.json"), file("cache.json")];
    let result = live_dir.load(Some(&listing)).unwrap();

    assert_eq!(result.loaded().len(), 3);
    assert!(result.failed.is_empty());
    assert!(result.removed.is_empty());

    assert_eq!(live_dir.get("app").unwrap().val, 1);
    assert_eq!(live_dir.get("db").unwrap().val, 2);
    assert_eq!(live_dir.get("cache").unwrap().val, 3);

    let keys = live_dir.keys();
    assert_eq!(keys.len(), 3);
    assert!(keys.contains(&"app".to_string()));
    assert!(keys.contains(&"db".to_string()));
    assert!(keys.contains(&"cache".to_string()));
}

#[test]
fn test_live_dir_reload_add_remove() {
    // Scanning a listing with a new file adds it; scanning one where a
    // file disappeared removes its key.
    let loader = json_loader(&[
        ("a.json", b"{\"val\": 1}"),
        ("b.json", b"{\"val\": 2}"),
        ("c.json", b"{\"val\": 3}"),
    ]);
    let mut live_dir = LiveDir::builder()
        .store(Store::<TestConfig>::new())
        .loader(loader)
        .path("conf")
        .build()
        .unwrap();

    let listing = vec![file("a.json"), file("b.json")];
    live_dir.load(Some(&listing)).unwrap();
    assert_eq!(live_dir.len(), 2);

    let listing = vec![file("a.json"), file("b.json"), file("c.json")];
    let result = live_dir.reload(Some(&listing)).unwrap();
    assert!(result.added.contains(&"c".to_string()));
    assert_eq!(live_dir.len(), 3);
    assert_eq!(live_dir.get("c").unwrap().val, 3);

    let listing = vec![file("b.json"), file("c.json")];
    let result = live_dir.reload(Some(&listing)).unwrap();
    assert!(result.removed.contains(&"a".to_string()));
    assert_eq!(live_dir.len(), 2);
    assert!(live_dir.get("a").is_none());
}

#[test]
fn test_live_dir_invalid_keeps_old() {
    // app.json loads with 42; after the content turns invalid, a rescan
    // reports the failure and the old value stays.
    let loader = json_loader(&[("app.json", b"{\"val\": 42}")]);
    let mut live_dir = LiveDir::builder()
        .store(Store::<TestConfig>::new())
        .loader(loader)
        .path("conf")
        .build()
        .unwrap();

    let listing = vec![file("app.json")];
    live_dir.load(Some(&listing)).unwrap();
    assert_eq!(live_dir.get("app").unwrap().val, 42);

    let broken = json_loader(&[("app.json", b"invalid json")]);
    live_dir.replace_loader(broken);
    let result = live_dir.reload(Some(&listing)).unwrap();

    assert_eq!(result.failed.len(), 1);
    assert_eq!(result.failed[0].0, "app");
    assert_eq!(live_dir.get("app").unwrap().val, 42);
    assert_eq!(live_dir.len(), 1);
}

#[test]
fn test_live_dir_unchanged_reload_updates_all() {
    // A rescan over an unchanged listing and source reports every key as
    // updated and nothing else.
    let loader = json_loader(&[("a.json", b"{\"val\": 1}"), ("b.json", b"{\"val\": 2}")]);
    let mut live_dir = LiveDir::builder()
        .store(Store::<TestConfig>::new())
        .loader(loader)
        .path("conf")
        .build()
        .unwrap();

    let listing = vec![file("a.json"), file("b.json")];
    live_dir.load(Some(&listing)).unwrap();
    let result = live_dir.reload(Some(&listing)).unwrap();
    assert!(result.added.is_empty());
    assert!(result.removed.is_empty());
    assert!(result.failed.is_empty());
    assert!(result.retained.is_empty());
    assert_eq!(result.updated.len(), 2);
    assert!(result.updated.contains(&"a".to_string()));
    assert!(result.updated.contains(&"b".to_string()));
}

#[test]
fn test_live_dir_persistent_policy() {
    // With a Persistent policy both keys survive a scan of an empty
    // directory, reported as retained.
    let loader = json_loader(&[
        ("persistent.json", b"{\"val\": 1}"),
        ("removable.json", b"{\"val\": 2}"),
    ]);
    let mut live_dir = LiveDir::builder()
        .store(Store::<TestConfig>::new())
        .loader(loader)
        .path("conf")
        .policy(UnloadPolicy::Persistent)
        .build()
        .unwrap();

    let listing = vec![file("persistent.json"), file("removable.json")];
    live_dir.load(Some(&listing)).unwrap();
    assert_eq!(live_dir.len(), 2);

    let empty: Vec<ListEntry> = Vec::new();
    let result = live_dir.reload(Some(&empty)).unwrap();

    assert_eq!(result.retained.len(), 2);
    assert!(result.removed.is_empty());

    assert_eq!(live_dir.get("persistent").unwrap().val, 1);
    assert_eq!(live_dir.get("removable").unwrap().val, 2);
    assert_eq!(live_dir.len(), 2);
}

#[test]
fn test_live_dir_owned_keys_isolation() {
    // A key seeded into the store by someone else is never removed by a
    // scan, whatever the listing says.
    let mut store = Store::<TestConfig>::new();
    store.insert(
        "foreign".to_string(),
        TestConfig { val: 99 },
        String::from("elsewhere"),
        UnloadPolicy::Removable,
    );
    let loader = json_loader(&[("mine.json", b"{\"val\": 1}")]);
    let mut live_dir = LiveDir::builder()
        .store(store)
        .loader(loader)
        .path("conf")
        .build()
        .unwrap();

    let listing = vec![file("mine.json")];
    live_dir.load(Some(&listing)).unwrap();
    assert_eq!(live_dir.get("mine").unwrap().val, 1);
    assert_eq!(live_dir.get("foreign").unwrap().val, 99);

    let empty: Vec<ListEntry> = Vec::new();
    let result = live_dir.reload(Some(&empty)).unwrap();
    assert_eq!(result.removed, vec!["mine".to_string()]);
    // The foreign key is untouched.
    assert_eq!(live_dir.get("foreign").unwrap().val, 99);
    assert!(live_dir.get("mine").is_none());
}

#[test]
fn test_live_dir_missing_directory() {
    let loader = json_loader(&[]);
    let mut live_dir = LiveDir::builder()
        .store(Store::<TestConfig>::new())
        .loader(loader)
        .path("conf")
        .build()
        .unwrap();
    let result = live_dir.load(None).unwrap();
    assert!(result.added.is_empty());
    assert!(result.removed.is_empty());
    assert_eq!(live_dir.len(), 0);
}

#[test]
fn test_live_dir_max_entries() {
    let loader = json_loader(&[("a.json", b"{\"val\": 1}"), ("b.json", b"{\"val\": 2}")]);
    let mut live_dir = LiveDir::builder()
        .store(Store::<TestConfig>::new())
        .loader(loader)
        .path("conf")
        .max_entries(1)
        .build()
        .unwrap();
    let listing = vec![file("a.json"), file("b.json")];
    match live_dir.load(Some(&listing)) {
        Err(LiveError::LimitExceeded(_)) => (),
        _ => panic!("Expected LimitExceeded"),
    }
}

#[test]
fn test_subdirs_format_agnostic() {
    // [tcp]/config.json and [udp]/config.toml, bracketed keys, probing
    // both formats under each subdirectory's config base name.
    let mut source = MemorySource::new();
    source.insert("[tcp]/config.json", b"{\"val\": 1}".to_vec());
    source.insert("[udp]/config.toml", b"val = 2".to_vec());
    let loader = DynLoader::builder()
        .source(source)
        .format(AnyFormat::Json)
        .format(AnyFormat::Toml)
        .build()
        .unwrap();

    let mut live_dir = LiveDir::builder()
        .store(Store::<TestConfig>::new())
        .loader(loader)
        .path("conf")
        .pattern(KeyPattern::Bracketed)
        .scan_mode(ScanMode::Subdirs { config_file: "config".to_string() })
        .build()
        .unwrap();

    let listing = vec![subdir("[tcp]"), subdir("[udp]")];
    let result = live_dir.load(Some(&listing)).unwrap();

    assert_eq!(result.loaded().len(), 2);
    assert!(result.failed.is_empty());

    assert_eq!(live_dir.get("tcp").unwrap().val, 1);
    assert_eq!(live_dir.get("udp").unwrap().val, 2);
}

#[test]
fn test_live_dir_subdirs_mode() {
    let mut source = MemorySource::new();
    source.insert("[443]/config.json", b"{\"val\": 443}".to_vec());
    source.insert("[80]/config.json", b"{\"val\": 80}".to_vec());
    source.insert("[8080]/config.json", b"{\"val\": 8080}".to_vec());
    let loader = DynLoader::builder()
        .source(source)
        .format(AnyFormat::Json)
        .build()
        .unwrap();

    let mut live_dir = LiveDir::builder()
        .store(Store::<TestConfig>::new())
        .loader(loader)
        .path("conf")
        .pattern(KeyPattern::Bracketed)
        .scan_mode(ScanMode::Subdirs { config_file: "config".to_string() })
        .build()
        .unwrap();

    let listing = vec![subdir("[443]"), subdir("[80]"), subdir("[8080]")];
    let result = live_dir.load(Some(&listing)).unwrap();
    assert_eq!(result.loaded().len(), 3);

    assert_eq!(live_dir.get("443").unwrap().val, 443);
    assert_eq!(live_dir.get("80").unwrap().val, 80);
    assert_eq!(live_dir.get("8080").unwrap().val, 8080);
}

#[test]
fn test_live_dir_hidden_files_skipped() {
    let loader = json_loader(&[(".secret.json", b"{\"val\": 1}"), ("seen.json", b"{\"val\": 2}")]);
    let mut live_dir = LiveDir::builder()
        .store(Store::<TestConfig>::new())
        .loader(loader)
        .path("conf")
        .build()
        .unwrap();
    let listing = vec![file(".secret.json"), file("seen.json")];
    live_dir.load(Some(&listing)).unwrap();
    assert_eq!(live_dir.len(), 1);
    assert!(live_dir.get("seen").is_some());
}
