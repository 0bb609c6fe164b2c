use ruprobes::memory::PageAllocator;
use ruprobes::memory::UserMemory;
use ruprobes::probes::ProbeType;
use ruprobes::probes::UprobeError;
use ruprobes::uprobes::UprobesInner;

fn write_all(mem: &mut UserMemory, addr: usize, bytes: &[u8]) {
    let mut i = 0;
    while i < bytes.len() {
        mem.write_byte(addr + i, bytes[i]);
        i += 1;
    }
}

fn read_all(mem: &UserMemory, addr: usize, len: usize) -> Vec<u8> {
    mem.read_bytes(addr, len)
}

#[test]
fn arm_installs_breakpoint_and_disarm_restores_original() {
    let mut mem = UserMemory::new(0x1000, 0x2000);
    let mut alloc = PageAllocator::new(0x2000);
    // add a0, a0, a1: a full-width instruction, legal to relocate
    write_all(&mut mem, 0x1000, &[0x33, 0x05, 0xB5, 0x00]);

    let mut probe = UprobesInner::new(0x1000, 1, None, ProbeType::Insn).unwrap();
    let result = probe.add_uprobepoint(&mut mem, &mut alloc, None);
    assert_eq!(result, Ok(()));
    assert_eq!(probe.length, 4);
    assert_eq!(probe.func_ebreak_addr, 0x2000);
    assert_eq!(probe.slot_addr, 0x2002);
    assert_eq!(probe.insn_ebreak_addr, 0x2006);

    // armed: the breakpoint encoding of the instruction's length
    assert_eq!(read_all(&mem, 0x1000, 4), vec![0x02, 0x90, 0x02, 0x90]);
    // the slot holds the original bytes, followed by the step breakpoint
    assert_eq!(read_all(&mem, 0x2002, 4), vec![0x33, 0x05, 0xB5, 0x00]);
    assert_eq!(read_all(&mem, 0x2006, 2), vec![0x02, 0x90]);

    // disarm: the original bytes come back exactly
    probe.disarm(&mut mem);
    assert_eq!(read_all(&mem, 0x1000, 4), vec![0x33, 0x05, 0xB5, 0x00]);

    // and the round trip repeats
    probe.arm(&mut mem);
    assert_eq!(read_all(&mem, 0x1000, 4), vec![0x02, 0x90, 0x02, 0x90]);
    probe.disarm(&mut mem);
    assert_eq!(read_all(&mem, 0x1000, 4), vec![0x33, 0x05, 0xB5, 0x00]);
}

#[test]
fn compressed_probe_arms_two_bytes() {
    let mut mem = UserMemory::new(0x1000, 0x2000);
    let mut alloc = PageAllocator::new(0x2000);
    // compressed CADDI4SPN-class bytes, length 2
    write_all(&mut mem, 0x1000, &[0x01, 0x00, 0xAA, 0xBB]);

    let mut probe = UprobesInner::new(0x1000, 1, None, ProbeType::Insn).unwrap();
    assert_eq!(probe.add_uprobepoint(&mut mem, &mut alloc, None), Ok(()));
    assert_eq!(probe.length, 2);
    assert_eq!(read_all(&mem, 0x1000, 2), vec![0x02, 0x90]);
    // the bytes after the probed instruction are untouched
    assert_eq!(read_all(&mem, 0x1002, 2), vec![0xAA, 0xBB]);
    probe.disarm(&mut mem);
    assert_eq!(read_all(&mem, 0x1000, 4), vec![0x01, 0x00, 0xAA, 0xBB]);
}

#[test]
fn illegal_instruction_leaves_probe_unarmed() {
    let mut mem = UserMemory::new(0x1000, 0x2000);
    let mut alloc = PageAllocator::new(0x2000);
    // ecall must not be relocated
    write_all(&mut mem, 0x1000, &[0x73, 0x00, 0x00, 0x00]);

    let mut probe = UprobesInner::new(0x1000, 1, None, ProbeType::Insn).unwrap();
    let result = probe.add_uprobepoint(&mut mem, &mut alloc, None);
    assert_eq!(result, Err(UprobeError::IllegalInstruction));
    // the probe point reads back unchanged
    assert_eq!(read_all(&mem, 0x1000, 4), vec![0x73, 0x00, 0x00, 0x00]);
}

#[test]
fn function_probe_needs_stack_adjustment() {
    let mut mem = UserMemory::new(0x1000, 0x2000);
    let mut alloc = PageAllocator::new(0x2000);
    write_all(&mut mem, 0x1000, &[0x01, 0x00, 0x00, 0x00]);

    let mut probe = UprobesInner::new(0x1000, 1, Some(2), ProbeType::SyncFunc).unwrap();
    let result = probe.add_uprobepoint(&mut mem, &mut alloc, None);
    assert_eq!(result, Err(UprobeError::MissingStackAdjustment));
    assert_eq!(read_all(&mem, 0x1000, 2), vec![0x01, 0x00]);

    // with the prologue scanner's answer it succeeds and arms
    let mut mem2 = UserMemory::new(0x1000, 0x2000);
    let mut alloc2 = PageAllocator::new(0x2000);
    write_all(&mut mem2, 0x1000, &[0x01, 0x00, 0x00, 0x00]);
    let mut probe2 = UprobesInner::new(0x1000, 1, Some(2), ProbeType::SyncFunc).unwrap();
    assert_eq!(probe2.add_uprobepoint(&mut mem2, &mut alloc2, Some(16)), Ok(()));
    assert_eq!(probe2.addisp, 16);
    assert_eq!(read_all(&mem2, 0x1000, 2), vec![0x02, 0x90]);
    // the function trampoline holds a breakpoint
    assert_eq!(read_all(&mem2, 0x2000, 2), vec![0x02, 0x90]);
}

#[test]
fn async_probe_fails_materialization() {
    let mut mem = UserMemory::new(0x1000, 0x2000);
    let mut alloc = PageAllocator::new(0x2000);
    write_all(&mut mem, 0x1000, &[0x01, 0x00, 0x00, 0x00]);

    let mut probe = UprobesInner::new(0x1000, 1, None, ProbeType::AsyncFunc).unwrap();
    assert_eq!(
        probe.add_uprobepoint(&mut mem, &mut alloc, None),
        Err(UprobeError::Unimplemented)
    );
    assert_eq!(read_all(&mem, 0x1000, 2), vec![0x01, 0x00]);
}
