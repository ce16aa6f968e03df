use plugin_interface::dispatch::{emits_proxies, empty_event, notification_action, proxies_of};
use plugin_interface::{
    FoundLibrary, FsEventKind, LibraryPlatform, LoadedArray, ManagerNotification, NotificationAction,
    PluginManager, PluginTrait, WatchEvent, WatchNotification, WatchOptions, WatchState,
};

const U: LibraryPlatform = LibraryPlatform::Unix;

fn strings(xs: &[&str]) -> Vec<String> {
    xs.iter().map(|s| s.to_string()).collect()
}

#[test]
fn default_options() {
    let o = WatchOptions::default();
    assert_eq!(o.debounce_ms, 300);
    assert!(!o.recursive);
    assert!(o.auto_load);
    assert!(!o.auto_unload);
    assert!(!o.emit_proxies);
}

#[test]
fn new_file_is_reported_after_the_window() {
    let mut w = WatchState::new(&strings(&["d/old.so", "d/readme"]), U);
    let removed = w.on_event(FsEventKind::CreateOrModify, &strings(&["d/new.so"]), 1000, U);
    assert!(removed.is_empty());
    assert!(w.on_tick(1100, 300).is_empty());
    assert_eq!(w.on_tick(1300, 300), strings(&["d/new.so"]));
    assert!(w.on_tick(5000, 300).is_empty());
}

#[test]
fn files_present_at_start_are_never_reported() {
    let mut w = WatchState::new(&strings(&["d/old.so"]), U);
    w.on_event(FsEventKind::CreateOrModify, &strings(&["d/old.so"]), 0, U);
    assert!(w.on_tick(10_000, 300).is_empty());
}

#[test]
fn modify_restarts_the_window() {
    let mut w = WatchState::new(&vec![], U);
    w.on_event(FsEventKind::CreateOrModify, &strings(&["d/a.so"]), 1000, U);
    w.on_event(FsEventKind::CreateOrModify, &strings(&["d/a.so"]), 1200, U);
    assert!(w.on_tick(1300, 300).is_empty());
    assert_eq!(w.on_tick(1500, 300), strings(&["d/a.so"]));
}

#[test]
fn written_then_removed_gives_one_pair() {
    let mut w = WatchState::new(&vec![], U);
    w.on_event(FsEventKind::CreateOrModify, &strings(&["d/a.so"]), 1000, U);
    let removed = w.on_event(FsEventKind::Remove, &strings(&["d/a.so", "d/a.txt"]), 1100, U);
    assert_eq!(removed, strings(&["d/a.so"]));
    assert_eq!(w.on_tick(1400, 300), strings(&["d/a.so"]));
    w.on_event(FsEventKind::CreateOrModify, &strings(&["d/a.so"]), 1500, U);
    assert!(w.on_tick(9000, 300).is_empty());
}

#[test]
fn other_events_and_foreign_files_are_ignored() {
    let mut w = WatchState::new(&vec![], U);
    assert!(w.on_event(FsEventKind::Other, &strings(&["d/a.so"]), 0, U).is_empty());
    w.on_event(FsEventKind::CreateOrModify, &strings(&["d/a.txt"]), 0, U);
    assert!(w.on_tick(1000, 300).is_empty());
}

#[test]
fn ready_paths_keep_arrival_order() {
    let mut w = WatchState::new(&vec![], U);
    w.on_event(FsEventKind::CreateOrModify, &strings(&["d/b.so", "d/a.so"]), 100, U);
    w.on_event(FsEventKind::CreateOrModify, &strings(&["d/c.so"]), 350, U);
    assert_eq!(w.on_tick(400, 300), strings(&["d/b.so", "d/a.so"]));
    assert_eq!(w.on_tick(650, 300), strings(&["d/c.so"]));
}

#[test]
fn clock_going_back_waits() {
    let mut w = WatchState::new(&vec![], U);
    w.on_event(FsEventKind::CreateOrModify, &strings(&["d/a.so"]), 1000, U);
    assert!(w.on_tick(500, 1).is_empty());
    assert_eq!(w.on_tick(500, 0), strings(&["d/a.so"]));
}

#[test]
fn polling_reports_each_new_library_once() {
    let mut w = WatchState::new(&strings(&["d/old.so"]), U);
    let first = w.on_listing(&strings(&["d/old.so", "d/new.so", "d/x.txt", "d/new.so"]), U);
    assert_eq!(first, strings(&["d/new.so"]));
    assert!(w.on_listing(&strings(&["d/old.so", "d/new.so"]), U).is_empty());
}

fn opts(auto_load: bool, auto_unload: bool, emit_proxies: bool) -> WatchOptions {
    WatchOptions { debounce_ms: 300, recursive: false, auto_load, auto_unload, emit_proxies }
}

#[test]
fn paths_are_loaded_or_reported() {
    let a = notification_action(WatchNotification::Paths(strings(&["d/a.so"])), opts(true, false, false), PluginTrait::Greeter);
    assert!(matches!(a, NotificationAction::Load(ref p) if *p == strings(&["d/a.so"])));
    let b = notification_action(WatchNotification::Paths(strings(&["d/a.so"])), opts(false, false, true), PluginTrait::Greeter);
    match b {
        NotificationAction::Emit(ManagerNotification::Event(WatchEvent::Proxies(ps, p))) => {
            assert!(ps.is_empty());
            assert_eq!(p, strings(&["d/a.so"]));
        }
        other => panic!("unexpected {:?}", other),
    }
    let c = notification_action(WatchNotification::Paths(strings(&["d/a.so"])), opts(false, false, false), PluginTrait::Greeter);
    assert!(matches!(c, NotificationAction::Emit(ManagerNotification::Event(WatchEvent::Handles(ref hs, _))) if hs.is_empty()));
}

#[test]
fn removals_are_unloaded_or_reported() {
    let n = || WatchNotification::Unloaded { path: "d/a.so".to_string(), counter: None };
    let a = notification_action(n(), opts(true, true, false), PluginTrait::Greeter);
    assert!(matches!(a, NotificationAction::Unload(ref p) if p == "d/a.so"));
    let b = notification_action(n(), opts(true, false, false), PluginTrait::Greeter);
    assert!(matches!(
        b,
        NotificationAction::Emit(ManagerNotification::Unloaded { ref path, counter: None }) if path == "d/a.so"
    ));
}

#[test]
fn errors_are_passed_on() {
    let a = notification_action(WatchNotification::Error("boom".to_string()), opts(true, true, true), PluginTrait::Greeter);
    assert!(matches!(a, NotificationAction::Emit(ManagerNotification::Error(ref e)) if e == "boom"));
}

#[test]
fn proxies_follow_handles() {
    assert!(emits_proxies(opts(true, false, true), PluginTrait::Greeter));
    assert!(!emits_proxies(opts(true, false, false), PluginTrait::Greeter));
    let mut m = PluginManager::new();
    let libs = vec![FoundLibrary {
        path: "d/libm.so".to_string(),
        array: LoadedArray { array_addr: 0x40, count: 2, host_owned: false },
    }];
    let hs = m.load_plugins(&libs, PluginTrait::Greeter).unwrap();
    let ps = proxies_of(&hs);
    assert_eq!(ps.len(), 2);
    assert_eq!((ps[1].slot, ps[1].index), (0, 1));
    match empty_event(strings(&["d/libm.so"]), opts(true, false, false), PluginTrait::Greeter) {
        WatchEvent::Handles(h, p) => {
            assert!(h.is_empty());
            assert_eq!(p, strings(&["d/libm.so"]));
        }
        WatchEvent::Proxies(..) => panic!("expected handles"),
    }
}
