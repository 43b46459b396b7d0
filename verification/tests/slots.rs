use leptos_ssr_lazy::lazy::{LazySlot, LoadFault, ModuleId, Resolution};

#[test]
fn the_first_call_starts_a_load() {
    let mut slot = LazySlot::Unloaded;
    assert_eq!(slot.resolve(), Resolution::Started);
    assert_eq!(slot, LazySlot::Loading);
}

#[test]
fn later_calls_join_the_load_in_flight() {
    let mut slot = LazySlot::Unloaded;
    let mut started = 0;
    for _ in 0..5 {
        if slot.resolve() == Resolution::Started {
            started += 1;
        }
    }
    assert_eq!(started, 1);
    assert_eq!(slot.resolve(), Resolution::Joined);
    assert_eq!(slot, LazySlot::Loading);
}

#[test]
fn a_loaded_module_is_handed_out_without_a_load() {
    let mut slot = LazySlot::Loading;
    assert!(slot.settle(Ok(ModuleId(7))));
    assert_eq!(slot, LazySlot::Ready(ModuleId(7)));
    assert_eq!(slot.resolve(), Resolution::Cached(ModuleId(7)));
    assert_eq!(slot, LazySlot::Ready(ModuleId(7)));
    assert_eq!(slot.loaded(), Some(ModuleId(7)));
}

#[test]
fn a_failed_load_is_tried_again_by_the_next_call() {
    let mut slot = LazySlot::Unloaded;
    slot.resolve();
    assert!(slot.settle(Err(LoadFault(3))));
    assert_eq!(slot, LazySlot::Failed(LoadFault(3)));
    assert_eq!(slot.loaded(), None);
    assert_eq!(slot.resolve(), Resolution::Started);
    assert_eq!(slot, LazySlot::Loading);
    assert!(slot.settle(Ok(ModuleId(1))));
    assert_eq!(slot, LazySlot::Ready(ModuleId(1)));
}

#[test]
fn a_report_without_a_load_is_dropped() {
    let mut slot = LazySlot::Unloaded;
    assert!(!slot.settle(Ok(ModuleId(1))));
    assert_eq!(slot, LazySlot::Unloaded);
    let mut ready = LazySlot::Ready(ModuleId(1));
    assert!(!ready.settle(Err(LoadFault(2))));
    assert_eq!(ready, LazySlot::Ready(ModuleId(1)));
    let mut failed = LazySlot::Failed(LoadFault(2));
    assert!(!failed.settle(Ok(ModuleId(1))));
    assert_eq!(failed, LazySlot::Failed(LoadFault(2)));
}

#[test]
fn nothing_is_loaded_before_a_load_settles() {
    assert_eq!(LazySlot::Unloaded.loaded(), None);
    assert_eq!(LazySlot::Loading.loaded(), None);
}
