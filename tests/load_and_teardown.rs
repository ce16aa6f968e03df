use plugin_interface::loader::next_probe_step;
use plugin_interface::teardown::plan_teardown;
use plugin_interface::{
    ArrayLayout, Exports, LoadedArray, LoadedLib, PluginTrait, ProbeEvent, ProbeStep, TeardownStep,
};

#[test]
fn probing_starts_with_the_aggregated_factory() {
    assert_eq!(next_probe_step(ProbeEvent::Opened), ProbeStep::CallAggregate);
}

#[test]
fn non_empty_aggregated_array_is_accepted() {
    let ev = ProbeEvent::AggregateReturned { array_addr: 0x100, count: 2, registrations_addr: 0x200 };
    assert_eq!(
        next_probe_step(ev),
        ProbeStep::Accept(LoadedArray { array_addr: 0x100, count: 2, host_owned: false })
    );
}

#[test]
fn null_or_empty_aggregated_array_falls_back() {
    let null = ProbeEvent::AggregateReturned { array_addr: 0, count: 2, registrations_addr: 0x200 };
    let empty = ProbeEvent::AggregateReturned { array_addr: 0x100, count: 0, registrations_addr: 0x200 };
    let no_regs = ProbeEvent::AggregateReturned { array_addr: 0x100, count: 1, registrations_addr: 0 };
    assert_eq!(next_probe_step(null), ProbeStep::CallSingle);
    assert_eq!(next_probe_step(empty), ProbeStep::CallSingle);
    assert_eq!(next_probe_step(no_regs), ProbeStep::CallSingle);
    assert_eq!(next_probe_step(ProbeEvent::AggregateMissing), ProbeStep::CallSingle);
}

#[test]
fn single_registration_is_wrapped_or_rejected() {
    assert_eq!(
        next_probe_step(ProbeEvent::SingleReturned { registration_addr: 0x40 }),
        ProbeStep::WrapSingle(0x40)
    );
    assert_eq!(
        next_probe_step(ProbeEvent::SingleReturned { registration_addr: 0 }),
        ProbeStep::Reject
    );
    assert_eq!(next_probe_step(ProbeEvent::SingleMissing), ProbeStep::Reject);
}

#[test]
fn host_single_array_has_one_entry() {
    let a = LoadedArray::host_single(0x500);
    assert_eq!(a, LoadedArray { array_addr: 0x500, count: 1, host_owned: true });
}

#[test]
fn records_of_both_origins() {
    let lib = LoadedLib::new_with_lib("a/libm.so".to_string(), PluginTrait::Greeter, 0x10, 2);
    assert_eq!(lib.owners, 2);
    assert!(!lib.array.host_owned);
    assert!(lib.listed && !lib.closed && !lib.unloaded);
    let host = LoadedLib::new_host_owned("a/libg.so".to_string(), PluginTrait::Greeter, 0x20);
    assert_eq!(host.array, LoadedArray { array_addr: 0x20, count: 1, host_owned: true });
    assert_eq!(host.owners, 1);
}

fn all_exports() -> Exports {
    Exports { unregister_all: true, unregister: true, unmaker_counter: true }
}

#[test]
fn aggregated_releaser_takes_the_whole_array() {
    let layout = ArrayLayout { registrations: vec![true, true], factories: Some(vec![true, true]) };
    assert_eq!(
        plan_teardown(&layout, all_exports()),
        vec![TeardownStep::UnregisterAll, TeardownStep::ReadCounter]
    );
}

#[test]
fn factories_release_slot_by_slot() {
    let layout = ArrayLayout {
        registrations: vec![true, false, true],
        factories: Some(vec![true, true, false]),
    };
    let ex = Exports { unregister_all: false, unregister: true, unmaker_counter: true };
    assert_eq!(
        plan_teardown(&layout, ex),
        vec![TeardownStep::Unmaker(0), TeardownStep::Unregister(2), TeardownStep::ReadCounter]
    );
}

#[test]
fn slot_without_any_releaser_is_skipped() {
    let layout = ArrayLayout { registrations: vec![true, true], factories: Some(vec![false, true]) };
    let ex = Exports { unregister_all: false, unregister: false, unmaker_counter: false };
    assert_eq!(plan_teardown(&layout, ex), vec![TeardownStep::Unmaker(1)]);
}

#[test]
fn host_owned_array_is_released_then_freed() {
    let layout = ArrayLayout { registrations: vec![true], factories: None };
    let ex = Exports { unregister_all: false, unregister: true, unmaker_counter: true };
    assert_eq!(
        plan_teardown(&layout, ex),
        vec![TeardownStep::Unregister(0), TeardownStep::ReadCounter, TeardownStep::FreeHostArray]
    );
    let with_all = plan_teardown(&layout, all_exports());
    assert_eq!(
        with_all,
        vec![TeardownStep::UnregisterAll, TeardownStep::ReadCounter, TeardownStep::FreeHostArray]
    );
}

#[test]
fn empty_array_needs_no_teardown() {
    let layout = ArrayLayout { registrations: vec![], factories: None };
    assert_eq!(plan_teardown(&layout, all_exports()), vec![]);
}

#[test]
fn every_registration_released_once() {
    // Three registrations, released one by one: the counter grows by three.
    let layout = ArrayLayout {
        registrations: vec![true, true, true],
        factories: Some(vec![true, false, true]),
    };
    let ex = Exports { unregister_all: false, unregister: true, unmaker_counter: true };
    let plan = plan_teardown(&layout, ex);
    let released = plan
        .iter()
        .filter(|s| matches!(s, TeardownStep::Unmaker(_) | TeardownStep::Unregister(_)))
        .count();
    assert_eq!(released, 3);
}

#[test]
fn fallback_and_one_element_array_tear_down_alike() {
    let fallback = ArrayLayout { registrations: vec![true], factories: None };
    let aggregated = ArrayLayout { registrations: vec![true], factories: Some(vec![true]) };
    let ex = Exports { unregister_all: false, unregister: true, unmaker_counter: true };
    let a = plan_teardown(&fallback, ex);
    let b = plan_teardown(&aggregated, ex);
    assert_eq!(a[0], TeardownStep::Unregister(0));
    assert_eq!(b[0], TeardownStep::Unmaker(0));
    assert_eq!(a[1], TeardownStep::ReadCounter);
    assert_eq!(b[1], TeardownStep::ReadCounter);
}
