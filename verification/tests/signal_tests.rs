use live::signal::tick_rate_ms;
use live::signal::watch_plan;
use live::signal::Config;
use live::signal::Debouncer;
use live::signal::EventKind;
use live::signal::Target;

fn dir_debouncer(debounce_ms: u64, coalesce: bool) -> Debouncer {
    let config = Config { debounce_ms, coalesce, ignore_hidden: true, listen_events: None };
    Debouncer::new(Target::Directory("root".to_string()), config).unwrap()
}

fn paths(names: &[&str]) -> Vec<String> {
    names.iter().map(|n| n.to_string()).collect()
}

#[test]
fn test_debounce_window() {
    // A path is reported only after its quiet period elapsed, and only
    // once per window.
    let mut d = dir_debouncer(500, true);
    d.handle_raw_event(&paths(&["root/a.json"]), EventKind::Modify, 1000);

    // Too early: nothing is emitted.
    let events = d.flush_pending(1400);
    assert!(events.is_empty());

    // Quiet period over: exactly one event, and the entry is forgotten.
    let events = d.flush_pending(1500);
    assert_eq!(events.len(), 1);
    assert_eq!(events[0].paths, vec!["root/a.json".to_string()]);
    assert_eq!(events[0].kind, EventKind::Modify);
    let events = d.flush_pending(2500);
    assert!(events.is_empty());
}

#[test]
fn test_debounce_refresh_resets_window() {
    // A second raw event within the window postpones the emission.
    let mut d = dir_debouncer(500, true);
    d.handle_raw_event(&paths(&["root/a.json"]), EventKind::Modify, 1000);
    d.handle_raw_event(&paths(&["root/a.json"]), EventKind::Modify, 1400);
    assert!(d.flush_pending(1500).is_empty());
    assert_eq!(d.flush_pending(1900).len(), 1);
}

#[test]
fn test_coalesce_table() {
    // Create then Modify keeps Create; Create then Remove becomes Remove;
    // Remove then Modify stays Remove.
    let mut d = dir_debouncer(100, true);
    d.handle_raw_event(&paths(&["root/a"]), EventKind::Create, 0);
    d.handle_raw_event(&paths(&["root/a"]), EventKind::Modify, 10);
    d.handle_raw_event(&paths(&["root/b"]), EventKind::Create, 10);
    d.handle_raw_event(&paths(&["root/b"]), EventKind::Remove, 20);
    d.handle_raw_event(&paths(&["root/c"]), EventKind::Remove, 10);
    d.handle_raw_event(&paths(&["root/c"]), EventKind::Modify, 20);

    let mut events = d.flush_pending(1000);
    events.sort_by(|a, b| a.paths[0].cmp(&b.paths[0]));
    assert_eq!(events.len(), 3);
    assert_eq!(events[0].kind, EventKind::Create);
    assert_eq!(events[1].kind, EventKind::Remove);
    assert_eq!(events[2].kind, EventKind::Remove);
}

#[test]
fn test_no_coalesce_latest_kind_wins() {
    let mut d = dir_debouncer(100, false);
    d.handle_raw_event(&paths(&["root/a"]), EventKind::Create, 0);
    d.handle_raw_event(&paths(&["root/a"]), EventKind::Modify, 10);
    let events = d.flush_pending(1000);
    assert_eq!(events.len(), 1);
    assert_eq!(events[0].kind, EventKind::Modify);
}

#[test]
fn test_one_event_per_path() {
    // Several raw events for two paths collapse to one event per path.
    let mut d = dir_debouncer(100, true);
    d.handle_raw_event(&paths(&["root/a", "root/b"]), EventKind::Modify, 0);
    d.handle_raw_event(&paths(&["root/a"]), EventKind::Modify, 10);
    d.handle_raw_event(&paths(&["root/b"]), EventKind::Modify, 20);
    let events = d.flush_pending(500);
    assert_eq!(events.len(), 2);
    assert_ne!(events[0].paths[0], events[1].paths[0]);
}

#[test]
fn test_hidden_paths_filtered() {
    let mut d = dir_debouncer(100, true);
    d.handle_raw_event(&paths(&["root/.hidden/x.json"]), EventKind::Modify, 0);
    d.handle_raw_event(&paths(&["root/visible/x.json"]), EventKind::Modify, 0);
    let events = d.flush_pending(500);
    assert_eq!(events.len(), 1);
    assert_eq!(events[0].paths[0], "root/visible/x.json");
}

#[test]
fn test_listen_events_allow_list() {
    let config = Config {
        debounce_ms: 100,
        coalesce: true,
        ignore_hidden: true,
        listen_events: Some(vec![EventKind::Remove]),
    };
    let mut d = Debouncer::new(Target::Directory("root".to_string()), config).unwrap();
    d.handle_raw_event(&paths(&["root/a"]), EventKind::Modify, 0);
    d.handle_raw_event(&paths(&["root/b"]), EventKind::Remove, 0);
    let events = d.flush_pending(500);
    assert_eq!(events.len(), 1);
    assert_eq!(events[0].kind, EventKind::Remove);
    // The suppressed entry was still consumed.
    assert!(d.flush_pending(1000).is_empty());
}

#[test]
fn test_filtered_target_globs() {
    let config = Config::default();
    let target = Target::Filtered {
        path: "root".to_string(),
        allow: vec!["*.json".to_string()],
        deny: vec!["tmp*".to_string()],
    };
    let mut d = Debouncer::new(target, config).unwrap();
    d.handle_raw_event(&paths(&["root/app.json"]), EventKind::Modify, 0);
    d.handle_raw_event(&paths(&["root/app.yaml"]), EventKind::Modify, 0);
    d.handle_raw_event(&paths(&["root/tmp.json"]), EventKind::Modify, 0);
    let events = d.flush_pending(1000);
    assert_eq!(events.len(), 1);
    assert_eq!(events[0].paths[0], "root/app.json");
}

#[test]
fn test_file_target_matches_watched_file() {
    let config = Config::default();
    let mut d = Debouncer::new(Target::File("conf/app.json".to_string()), config).unwrap();
    // The watch root is the parent directory "conf"; an event for the
    // watched file itself passes the filter, a sibling does not.
    d.handle_raw_event(&paths(&["conf/app.json"]), EventKind::Modify, 0);
    d.handle_raw_event(&paths(&["conf/other.json"]), EventKind::Modify, 0);
    let events = d.flush_pending(1000);
    assert_eq!(events.len(), 1);
    assert_eq!(events[0].paths[0], "conf/app.json");
}

#[test]
fn test_bad_glob_pattern_rejected() {
    let config = Config::default();
    let target = Target::Filtered {
        path: "root".to_string(),
        allow: vec!["[".to_string()],
        deny: vec![],
    };
    match Debouncer::new(target, config) {
        Err(live::signal::SignalError::Glob(_)) => (),
        _ => panic!("Expected a glob error"),
    }
}

#[test]
fn test_watch_plan() {
    let plan = watch_plan(&Target::File("conf/app.json".to_string()));
    assert_eq!(plan.path, "conf");
    assert!(!plan.recursive);

    let plan = watch_plan(&Target::File("/app.json".to_string()));
    assert_eq!(plan.path, "/");

    let plan = watch_plan(&Target::File("app.json".to_string()));
    assert_eq!(plan.path, "app.json");

    let plan = watch_plan(&Target::Directory("conf".to_string()));
    assert_eq!(plan.path, "conf");
    assert!(plan.recursive);
}

#[test]
fn test_tick_rate() {
    assert_eq!(tick_rate_ms(500), 100);
    assert_eq!(tick_rate_ms(49), 49);
    assert_eq!(tick_rate_ms(50), 10);
}
