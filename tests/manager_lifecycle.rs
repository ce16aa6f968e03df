use plugin_interface::{
    FoundLibrary, GreeterProxy, LibraryPlatform, LoadedArray, PluginHandle, PluginId,
    PluginLoadError, PluginManager, PluginTrait, Teardown,
};

fn found(path: &str, addr: usize, count: usize) -> FoundLibrary {
    FoundLibrary { path: path.to_string(), array: LoadedArray { array_addr: addr, count, host_owned: false } }
}

fn fallback(path: &str, addr: usize) -> FoundLibrary {
    FoundLibrary { path: path.to_string(), array: LoadedArray::host_single(addr) }
}

fn load(m: &mut PluginManager, libs: Vec<FoundLibrary>) -> Vec<PluginHandle> {
    m.load_plugins(&libs, PluginTrait::Greeter).expect("registrations")
}

#[test]
fn single_greeter_loads_and_closes_with_counter() {
    let mut m = PluginManager::new();
    let hs = load(&mut m, vec![fallback("plugins/libg.so", 0x1000)]);
    assert_eq!(hs.len(), 1);
    let h = hs.into_iter().next().unwrap();
    let proxy = h.as_greeter().expect("greeter proxy");
    assert_eq!(m.resolve(&proxy), Some(LoadedArray { array_addr: 0x1000, count: 1, host_owned: true }));
    let slot = h.slot();
    assert_eq!(m.close(h), Teardown::Now(slot));
    assert!(m.lib(slot).unwrap().unloaded);
}

#[test]
fn two_greeters_give_two_handles() {
    let mut m = PluginManager::new();
    let hs = load(&mut m, vec![found("plugins/libm.so", 0x2000, 2)]);
    assert_eq!(hs.len(), 2);
    let mut indexes: Vec<usize> = hs.iter().map(|h| h.index()).collect();
    indexes.sort();
    assert_eq!(indexes, vec![0, 1]);
    assert_eq!(hs[0].id(), PluginId::from_parts(0, 0x2000));
    assert_eq!(hs[1].id(), PluginId::from_parts(1, 0x2000));
    let mut it = hs.into_iter();
    let first = it.next().unwrap();
    let second = it.next().unwrap();
    let slot = second.slot();
    assert_eq!(m.release(first), Teardown::Deferred);
    assert_eq!(m.close(second), Teardown::Now(slot));
}

#[test]
fn second_load_of_same_directory_finds_nothing() {
    let mut m = PluginManager::new();
    let libs = vec![found("plugins/libm.so", 0x2000, 2), fallback("plugins/libg.so", 0x3000)];
    let first = m.load_plugins(&libs, PluginTrait::Greeter).expect("first load");
    assert_eq!(first.len(), 3);
    let again = vec![found("plugins/libm.so", 0x2000, 2), fallback("plugins/libg.so", 0x3000)];
    assert!(matches!(m.load_plugins(&again, PluginTrait::Greeter), Err(PluginLoadError::NoRegistrations)));
    assert_eq!(m.len(), 2);
}

#[test]
fn new_library_is_loaded_beside_known_ones() {
    let mut m = PluginManager::new();
    let _ = load(&mut m, vec![found("plugins/libm.so", 0x2000, 2)]);
    let hs = load(&mut m, vec![found("plugins/libm.so", 0x2000, 2), fallback("plugins/libg.so", 0x3000)]);
    assert_eq!(hs.len(), 1);
    assert_eq!(hs[0].slot(), 1);
}

#[test]
fn empty_array_and_empty_listing_yield_no_registrations() {
    let mut m = PluginManager::new();
    assert!(matches!(
        m.load_plugins(&vec![found("plugins/libz.so", 0x10, 0)], PluginTrait::Greeter),
        Err(PluginLoadError::NoRegistrations)
    ));
    assert!(matches!(m.load_plugins(&vec![], PluginTrait::Greeter), Err(PluginLoadError::NoRegistrations)));
    assert_eq!(m.len(), 0);
}

#[test]
fn unload_by_path_defers_while_handles_live() {
    let mut m = PluginManager::new();
    let hs = load(&mut m, vec![fallback("plugins/libg.so", 0x1000)]);
    assert!(m.is_loaded(&"plugins/libg.so".to_string()));
    assert_eq!(m.unload_by_path("plugins/libg.so"), Teardown::Deferred);
    assert!(!m.is_loaded(&"plugins/libg.so".to_string()));
    assert!(m.lib(0).unwrap().closed);
    let h = hs.into_iter().next().unwrap();
    // The latch was set by the unload, so the last owner tears down silently.
    assert_eq!(m.close(h), Teardown::OnDrop(0));
    assert_eq!(m.unload_by_path("plugins/libg.so"), Teardown::Deferred);
}

#[test]
fn unloaded_path_can_be_loaded_again() {
    let mut m = PluginManager::new();
    let _hs = load(&mut m, vec![fallback("plugins/libg.so", 0x1000)]);
    assert_eq!(m.unload_by_path("plugins/libg.so"), Teardown::Deferred);
    let again = load(&mut m, vec![fallback("plugins/libg.so", 0x4000)]);
    assert_eq!(again.len(), 1);
    assert_eq!(again[0].slot(), 1);
}

#[test]
fn unknown_path_unload_changes_nothing() {
    let mut m = PluginManager::new();
    let _hs = load(&mut m, vec![fallback("plugins/libg.so", 0x1000)]);
    assert_eq!(m.unload_by_path("plugins/other.so"), Teardown::Deferred);
    assert!(m.is_loaded(&"plugins/libg.so".to_string()));
}

#[test]
fn shared_handle_keeps_library_until_last_close() {
    let mut m = PluginManager::new();
    let hs = load(&mut m, vec![fallback("plugins/libg.so", 0x1000)]);
    let h1 = hs.into_iter().next().unwrap();
    let h2 = m.share(&h1).expect("second handle");
    assert_eq!(h1.id(), h2.id());
    assert_eq!(m.lib(0).unwrap().owners, 2);
    assert_eq!(m.release(h1), Teardown::Deferred);
    assert_eq!(m.close(h2), Teardown::Now(0));
}

#[test]
fn second_close_reports_nothing() {
    let mut m = PluginManager::new();
    let hs = load(&mut m, vec![fallback("plugins/libg.so", 0x1000)]);
    let h1 = hs.into_iter().next().unwrap();
    let h2 = m.share(&h1).unwrap();
    assert_eq!(m.close(h1), Teardown::Deferred);
    assert_eq!(m.close(h2), Teardown::OnDrop(0));
}

#[test]
fn proxy_fails_cleanly_after_teardown() {
    let mut m = PluginManager::new();
    let hs = load(&mut m, vec![fallback("plugins/libg.so", 0x1000)]);
    let h = hs.into_iter().next().unwrap();
    let proxy = h.as_greeter().unwrap();
    assert_eq!(m.close(h), Teardown::Now(0));
    assert_eq!(m.resolve(&proxy), None);
    assert_eq!(m.resolve(&GreeterProxy { slot: 7, index: 0 }), None);
    assert_eq!(m.resolve(&GreeterProxy { slot: 0, index: 3 }), None);
}

#[test]
fn sharing_a_torn_down_handle_is_refused() {
    let mut m = PluginManager::new();
    let hs = load(&mut m, vec![found("plugins/libm.so", 0x2000, 2)]);
    let mut it = hs.into_iter();
    let a = it.next().unwrap();
    let b = it.next().unwrap();
    assert_eq!(m.release(a), Teardown::Deferred);
    let bb = m.share(&b).unwrap();
    assert_eq!(m.release(b), Teardown::Deferred);
    assert_eq!(m.release(bb), Teardown::OnDrop(0));
}

#[test]
fn candidates_skip_loaded_and_foreign_files() {
    let mut m = PluginManager::new();
    let _hs = load(&mut m, vec![fallback("d/liba.so", 0x1000)]);
    let entries = vec![
        "d/liba.so".to_string(),
        "d/notes.txt".to_string(),
        "d/libb.so".to_string(),
        "d/libc.dll".to_string(),
    ];
    assert_eq!(m.candidates(&entries, LibraryPlatform::Unix), vec!["d/libb.so".to_string()]);
    assert_eq!(
        m.candidates(&entries, LibraryPlatform::Windows),
        vec!["d/libc.dll".to_string()]
    );
}

#[test]
fn default_manager_is_empty() {
    let m = PluginManager::default();
    assert_eq!(m.len(), 0);
    assert!(m.lib(0).is_none());
    assert!(!m.is_loaded(&"plugins/libg.so".to_string()));
}
