use ruprobes::memory::PageAllocator;
use ruprobes::memory::UserMemory;
use ruprobes::probes::ProbeType;
use ruprobes::probes::StackAdjustOracle;
use ruprobes::probes::TrapContext;
use ruprobes::probes::UprobeError;
use ruprobes::uprobes::uprobe_register;
use ruprobes::uprobes::uprobe_unregister;
use ruprobes::uprobes::uprobes_init;
use ruprobes::uprobes::uprobes_trap_handler;
use ruprobes::uprobes::CurrentProcessUprobes;
use ruprobes::uprobes::TrapOutcome;

fn write_all(mem: &mut UserMemory, addr: usize, bytes: &[u8]) {
    let mut i = 0;
    while i < bytes.len() {
        mem.write_byte(addr + i, bytes[i]);
        i += 1;
    }
}

#[test]
fn instruction_probe_single_steps_and_resumes() {
    let mut table = CurrentProcessUprobes::new();
    let mut mem = UserMemory::new(0x1000, 0x2000);
    let mut alloc = PageAllocator::new(0x2000);
    let oracle = StackAdjustOracle::new();
    let image = String::from("demo_app");

    // a relocatable full-width instruction at the probe point
    write_all(&mut mem, 0x1000, &[0x33, 0x05, 0xB5, 0x00]);
    let status = uprobe_register(
        &mut table,
        String::from("demo_app"),
        0x1000,
        7,
        Some(8),
        ProbeType::Insn,
        &image,
        &mut mem,
        &mut alloc,
        &oracle,
    );
    assert_eq!(status, 1);
    // armed at once: the image is the one executing
    assert_eq!(mem.read_byte(0x1000), 0x02);

    let mut entry_handler_runs = 0;
    let mut post_handler_runs = 0;

    // the breakpoint fires at the probe point
    let mut cx = TrapContext { sepc: 0x1000, ra: 0x500, sp: 0x800 };
    if let Some(token) = table.lookup_entry_handler(&image, cx.sepc) {
        assert_eq!(token, 7);
        entry_handler_runs += 1;
    }
    let outcome = uprobes_trap_handler(&mut table, &image, &mut cx);
    assert_eq!(outcome, Ok(TrapOutcome::Entry));
    // redirected into the out-of-line slot
    assert_eq!(cx.sepc, 0x2002);
    assert_eq!(cx.ra, 0x500);
    assert_eq!(cx.sp, 0x800);

    // the single step completes at the slot's trailing breakpoint
    cx.sepc = 0x2006;
    assert_eq!(table.lookup_entry_handler(&image, cx.sepc), None);
    let outcome = uprobes_trap_handler(&mut table, &image, &mut cx);
    match outcome {
        Ok(TrapOutcome::InsnComplete { post_handler }) => {
            assert_eq!(post_handler, Some(8));
            post_handler_runs += 1;
        }
        other => panic!("unexpected outcome: {:?}", other),
    }
    // resumes just past the original instruction
    assert_eq!(cx.sepc, 0x1004);
    // exactly one entry handler and one post handler invocation
    assert_eq!(entry_handler_runs, 1);
    assert_eq!(post_handler_runs, 1);
    // no residual in-flight entry
    assert!(!table.inner[0].probes.current_uprobes.contains_key(0x2006));
    assert_eq!(table.inner[0].probes.current_uprobes.inner.len(), 0);
}

#[test]
fn recursive_function_probe_unwinds_in_reverse_order() {
    let mut table = CurrentProcessUprobes::new();
    let mut mem = UserMemory::new(0x1000, 0x2000);
    let mut alloc = PageAllocator::new(0x2000);
    let mut oracle = StackAdjustOracle::new();
    oracle.record(0x1000, 16);
    let image = String::from("recurser");

    // a compressed instruction opens the probed function
    write_all(&mut mem, 0x1000, &[0x01, 0x00, 0x00, 0x00]);
    let status = uprobe_register(
        &mut table,
        String::from("recurser"),
        0x1000,
        21,
        Some(22),
        ProbeType::SyncFunc,
        &image,
        &mut mem,
        &mut alloc,
        &oracle,
    );
    assert_eq!(status, 1);
    let trampoline = 0x2000; // the first fresh region

    let mut entry_runs = 0;
    let mut exit_runs = 0;
    let mut resumed_at = Vec::new();

    // the function enters three times, nested, before any return
    let callers = [0xAAA0, 0xBBB0, 0xCCC0];
    let mut cx = TrapContext { sepc: 0x1000, ra: callers[0], sp: 0x8000 };
    for depth in 0..3 {
        cx.sepc = 0x1000;
        cx.ra = callers[depth];
        if let Some(token) = table.lookup_entry_handler(&image, cx.sepc) {
            assert_eq!(token, 21);
            entry_runs += 1;
        }
        let outcome = uprobes_trap_handler(&mut table, &image, &mut cx);
        assert_eq!(outcome, Ok(TrapOutcome::Entry));
        // resumes past the probed instruction, stack pointer adjusted,
        // return diverted to the trampoline
        assert_eq!(cx.sepc, 0x1002);
        assert_eq!(cx.ra, trampoline);
    }
    assert_eq!(cx.sp, 0x8000 + 3 * 16);
    assert_eq!(
        table.inner[0].probes.current_uprobes.inner[0].probe.func_ra,
        vec![0xAAA0, 0xBBB0, 0xCCC0]
    );

    // the three invocations finish, innermost first
    for _ in 0..3 {
        cx.sepc = trampoline;
        let outcome = uprobes_trap_handler(&mut table, &image, &mut cx);
        match outcome {
            Ok(TrapOutcome::FuncReturn { post_handler }) => {
                assert_eq!(post_handler, 22);
                exit_runs += 1;
                resumed_at.push(cx.sepc);
            }
            other => panic!("unexpected outcome: {:?}", other),
        }
    }

    // the exit handler ran exactly three times, in reverse entry order
    assert_eq!(entry_runs, 3);
    assert_eq!(exit_runs, 3);
    assert_eq!(resumed_at, vec![0xCCC0, 0xBBB0, 0xAAA0]);
    // the in-flight entry is gone after the outermost return
    assert!(!table.inner[0].probes.current_uprobes.contains_key(trampoline));
    assert_eq!(table.inner[0].probes.current_uprobes.inner.len(), 0);
}

#[test]
fn unknown_trap_is_reported_upward() {
    let mut table = CurrentProcessUprobes::new();
    let mut mem = UserMemory::new(0x1000, 0x2000);
    let mut alloc = PageAllocator::new(0x2000);
    let oracle = StackAdjustOracle::new();
    let image = String::from("demo_app");

    write_all(&mut mem, 0x1000, &[0x33, 0x05, 0xB5, 0x00]);
    uprobe_register(
        &mut table,
        String::from("demo_app"),
        0x1000,
        7,
        None,
        ProbeType::Insn,
        &image,
        &mut mem,
        &mut alloc,
        &oracle,
    );

    // a trap that matches neither a probe point nor a continuation
    let mut cx = TrapContext { sepc: 0x1700, ra: 0, sp: 0 };
    assert_eq!(
        uprobes_trap_handler(&mut table, &image, &mut cx),
        Err(UprobeError::UnknownTrap)
    );
    assert_eq!(cx.sepc, 0x1700);

    // a trap in an image without probes is not absorbed either
    let other = String::from("stranger");
    let mut cx2 = TrapContext { sepc: 0x1000, ra: 0, sp: 0 };
    assert_eq!(
        uprobes_trap_handler(&mut table, &other, &mut cx2),
        Err(UprobeError::UnknownTrap)
    );
}

#[test]
fn async_function_probe_is_refused_loudly() {
    let mut table = CurrentProcessUprobes::new();
    let mut mem = UserMemory::new(0x1000, 0x2000);
    let mut alloc = PageAllocator::new(0x2000);
    let oracle = StackAdjustOracle::new();
    let image = String::from("demo_app");

    let status = uprobe_register(
        &mut table,
        String::from("demo_app"),
        0x1000,
        7,
        None,
        ProbeType::AsyncFunc,
        &image,
        &mut mem,
        &mut alloc,
        &oracle,
    );
    assert_eq!(status, -1);
    assert_eq!(table.inner.len(), 0);
}

#[test]
fn unregister_disarms_and_removes_the_descriptor() {
    let mut table = CurrentProcessUprobes::new();
    let mut mem = UserMemory::new(0x1000, 0x2000);
    let mut alloc = PageAllocator::new(0x2000);
    let oracle = StackAdjustOracle::new();
    let image = String::from("demo_app");

    write_all(&mut mem, 0x1000, &[0x33, 0x05, 0xB5, 0x00]);
    uprobe_register(
        &mut table,
        String::from("demo_app"),
        0x1000,
        7,
        None,
        ProbeType::Insn,
        &image,
        &mut mem,
        &mut alloc,
        &oracle,
    );
    assert_eq!(mem.read_byte(0x1000), 0x02);

    // unregistering restores the original bytes and drops the descriptor
    let status = uprobe_unregister(&mut table, &image, 0x1000, &image, &mut mem);
    assert_eq!(status, 1);
    assert_eq!(mem.read_bytes(0x1000, 4), vec![0x33, 0x05, 0xB5, 0x00]);
    assert_eq!(table.inner[0].probes.uprobes.inner.len(), 0);

    // a second unregistration finds nothing
    let status = uprobe_unregister(&mut table, &image, 0x1000, &image, &mut mem);
    assert_eq!(status, -1);
    // and an unknown image is refused too
    let other = String::from("stranger");
    assert_eq!(
        uprobe_unregister(&mut table, &other, 0x1000, &image, &mut mem),
        -1
    );
}

#[test]
fn init_rearms_all_probes_of_the_starting_image() {
    let mut table = CurrentProcessUprobes::new();
    let mut mem = UserMemory::new(0x1000, 0x2000);
    let mut alloc = PageAllocator::new(0x2000);
    let mut oracle = StackAdjustOracle::new();
    oracle.record(0x1010, 32);
    let image = String::from("later_app");
    let running = String::from("someone_else");

    write_all(&mut mem, 0x1000, &[0x33, 0x05, 0xB5, 0x00]);
    write_all(&mut mem, 0x1010, &[0x01, 0x00, 0x00, 0x00]);

    // registered while another image runs: nothing is armed yet
    uprobe_register(
        &mut table,
        String::from("later_app"),
        0x1000,
        1,
        None,
        ProbeType::Insn,
        &running,
        &mut mem,
        &mut alloc,
        &oracle,
    );
    uprobe_register(
        &mut table,
        String::from("later_app"),
        0x1010,
        2,
        Some(3),
        ProbeType::SyncFunc,
        &running,
        &mut mem,
        &mut alloc,
        &oracle,
    );
    assert_eq!(mem.read_byte(0x1000), 0x33);
    assert_eq!(mem.read_byte(0x1010), 0x01);
    assert_eq!(alloc.next, 0x2000);

    // the image begins executing: every registered probe is armed into
    // fresh regions
    uprobes_init(&mut table, &image, &mut mem, &mut alloc, &oracle);
    assert_eq!(mem.read_byte(0x1000), 0x02);
    assert_eq!(mem.read_byte(0x1001), 0x90);
    assert_eq!(mem.read_byte(0x1002), 0x02);
    assert_eq!(mem.read_byte(0x1003), 0x90);
    assert_eq!(mem.read_byte(0x1010), 0x02);
    assert_eq!(mem.read_byte(0x1011), 0x90);

    let probes = &table.inner[0].probes.uprobes.inner;
    assert_eq!(probes.len(), 2);
    // fresh trampoline and slot regions, never reused across descriptors
    assert_eq!(probes[0].func_ebreak_addr, 0x2000);
    assert_eq!(probes[0].slot_addr, 0x2002);
    assert_eq!(probes[1].func_ebreak_addr, 0x2008);
    assert_eq!(probes[1].slot_addr, 0x200A);
    assert_eq!(probes[0].length, 4);
    assert_eq!(probes[1].length, 2);
    assert_eq!(probes[1].addisp, 32);
    assert_eq!(alloc.next, 0x2010);

    // a second execution gets a fresh address space and is
    // re-materialized into new regions again
    let mut mem = UserMemory::new(0x1000, 0x2000);
    write_all(&mut mem, 0x1000, &[0x33, 0x05, 0xB5, 0x00]);
    write_all(&mut mem, 0x1010, &[0x01, 0x00, 0x00, 0x00]);
    uprobes_init(&mut table, &image, &mut mem, &mut alloc, &oracle);
    let probes = &table.inner[0].probes.uprobes.inner;
    assert_eq!(probes[0].func_ebreak_addr, 0x2010);
    assert_eq!(probes[0].slot_addr, 0x2012);
    assert_eq!(probes[1].func_ebreak_addr, 0x2018);
    assert_eq!(probes[1].slot_addr, 0x201A);
}
