use ruprobes::probes::ProbeType;
use ruprobes::uprobes::Uprobes;
use ruprobes::uprobes::UprobesInner;

#[test]
fn new_descriptor_starts_unmaterialized() {
    let probe = UprobesInner::new(0x4000, 11, Some(12), ProbeType::SyncFunc).unwrap();
    assert_eq!(probe.addr, 0x4000);
    assert_eq!(probe.length, 0);
    assert_eq!(probe.slot_addr, 0);
    assert_eq!(probe.addisp, 0);
    assert!(probe.func_ra.is_empty());
    assert_eq!(probe.func_ebreak_addr, 0);
    assert_eq!(probe.insn_ebreak_addr, 0);
    assert_eq!(probe.handler, 11);
    assert_eq!(probe.post_handler, Some(12));
    assert_eq!(probe.probe_type, ProbeType::SyncFunc);
}

#[test]
fn registering_twice_updates_instead_of_duplicating() {
    let mut registry = Uprobes::new();
    assert_eq!(registry.register_uprobe(0x1000, 1, None, ProbeType::Insn), 1);
    assert_eq!(registry.register_uprobe(0x2000, 2, None, ProbeType::Insn), 1);
    assert_eq!(registry.inner.len(), 2);

    // same address again: the descriptor is replaced, not duplicated
    assert_eq!(
        registry.register_uprobe(0x1000, 3, Some(4), ProbeType::SyncFunc),
        1
    );
    assert_eq!(registry.inner.len(), 2);
    assert_eq!(registry.inner[0].addr, 0x1000);
    assert_eq!(registry.inner[0].handler, 3);
    assert_eq!(registry.inner[0].post_handler, Some(4));
    assert_eq!(registry.inner[0].probe_type, ProbeType::SyncFunc);
    // the other descriptor is untouched
    assert_eq!(registry.inner[1].addr, 0x2000);
    assert_eq!(registry.inner[1].handler, 2);
}

#[test]
fn async_function_probe_is_refused_at_registration() {
    let mut registry = Uprobes::new();
    assert_eq!(
        registry.register_uprobe(0x1000, 1, None, ProbeType::AsyncFunc),
        -1
    );
    assert_eq!(registry.inner.len(), 0);
}
