//! The probe registry and trap state machine.
//!
//! A probe is registered per process image and per address.  While the
//! owning image executes, the descriptor is materialized: a trampoline and
//! an out-of-line slot are allocated, the original instruction is copied
//! into the slot, and the probe point is armed by overwriting it with the
//! breakpoint encoding.  Every breakpoint trap is then dispatched in two
//! phases: a hit at a registered probe point runs the probe's handler and
//! redirects execution (past the probe for function probes, into the slot
//! for instruction probes), and a hit at a trampoline finishes an in-flight
//! invocation, runs the post handler and restores the original control
//! flow.  User callbacks are owned by the host kernel and referred to only
//! by opaque tokens; the host runs the token this module hands back.

use vstd::prelude::*;

use crate::memory::ebreak_byte;
use crate::memory::PageAllocator;
use crate::memory::UserMemory;
use crate::memory::EBREAK_BYTE_EVEN;
use crate::memory::EBREAK_BYTE_ODD;
use crate::probes::ProbeType;
use crate::probes::StackAdjustOracle;
use crate::probes::TrapContext;
use crate::probes::UprobeError;
use crate::riscv_insn_decode::insn_decode;
use crate::riscv_insn_decode::get_insn_length;
use crate::riscv_insn_decode::spec_insn_legal;
use crate::riscv_insn_decode::InsnStatus;

verus! {

/// Length in bytes of the instruction whose first byte is `first`: its two
/// low bits decide between the compressed and the full-width encoding.
pub open spec fn spec_probe_len(first: u8) -> usize {
    if first & 0b11 == 0b11 {
        4
    } else {
        2
    }
}

/// The mathematical value of a probe descriptor.
pub struct ProbeView {
    pub addr: usize,
    pub length: usize,
    pub slot_addr: usize,
    pub addisp: usize,
    pub func_ra: Seq<usize>,
    pub func_ebreak_addr: usize,
    pub insn_ebreak_addr: usize,
    pub handler: usize,
    pub post_handler: Option<usize>,
    pub probe_type: ProbeType,
}

/// One registered breakpoint: the descriptor of a probe at one address
/// within one process image.
pub struct UprobesInner {
    /// Virtual address of the probed instruction.
    pub addr: usize,
    /// Decoded length of the probed instruction: 0 before materialization,
    /// then 2 or 4.
    pub length: usize,
    /// Address of the out-of-line slot holding a copy of the original
    /// instruction.
    pub slot_addr: usize,
    /// Stack-pointer adjustment applied on entry to a probed function.
    pub addisp: usize,
    /// Return addresses of the probed function's unfinished invocations,
    /// innermost last.
    pub func_ra: Vec<usize>,
    /// Address of the synthetic breakpoint used as substitute return
    /// address for function probes.
    pub func_ebreak_addr: usize,
    /// Address just past the relocated instruction in the slot, where the
    /// single step of an instruction probe completes.
    pub insn_ebreak_addr: usize,
    /// Token of the host callback run when the probe is hit.
    pub handler: usize,
    /// Token of the host callback run when the probed instruction or
    /// function finishes, if one was attached.
    pub post_handler: Option<usize>,
    /// The granularity of this probe.
    pub probe_type: ProbeType,
}

impl View for UprobesInner {
    type V = ProbeView;

    open spec fn view(&self) -> ProbeView {
        ProbeView {
            addr: self.addr,
            length: self.length,
            slot_addr: self.slot_addr,
            addisp: self.addisp,
            func_ra: self.func_ra@,
            func_ebreak_addr: self.func_ebreak_addr,
            insn_ebreak_addr: self.insn_ebreak_addr,
            handler: self.handler,
            post_handler: self.post_handler,
            probe_type: self.probe_type,
        }
    }
}

/// The descriptor a registration creates, before materialization.
pub open spec fn fresh_probe(
    addr: usize,
    handler: usize,
    post_handler: Option<usize>,
    probe_type: ProbeType,
) -> ProbeView {
    ProbeView {
        addr,
        length: 0,
        slot_addr: 0,
        addisp: 0,
        func_ra: Seq::empty(),
        func_ebreak_addr: 0,
        insn_ebreak_addr: 0,
        handler,
        post_handler,
        probe_type,
    }
}

/// How arming changes target memory: the `length` bytes at the probe point
/// now hold the breakpoint pattern, every other byte of the span is
/// untouched.
pub open spec fn arm_rel(p: ProbeView, m0: UserMemory, m1: UserMemory) -> bool {
    &&& m1.base == m0.base
    &&& m1.bytes@.len() == m0.bytes@.len()
    &&& forall|i: int| 0 <= i < p.length ==> m1.byte_at(p.addr + i) == ebreak_byte(i)
    &&& forall|a: int|
        m0.covers(a, 1) && !(p.addr <= a < p.addr + p.length) ==> m1.byte_at(a) == m0.byte_at(a)
}

/// How disarming changes target memory: the `length` bytes at the probe
/// point hold what the out-of-line slot held, every other byte of the span
/// is untouched.
pub open spec fn disarm_rel(p: ProbeView, m0: UserMemory, m1: UserMemory) -> bool {
    &&& m1.base == m0.base
    &&& m1.bytes@.len() == m0.bytes@.len()
    &&& forall|i: int|
        0 <= i < p.length ==> #[trigger] m1.byte_at(p.addr + i) == m0.byte_at(p.slot_addr + i)
    &&& forall|a: int|
        m0.covers(a, 1) && !(p.addr <= a < p.addr + p.length) ==> m1.byte_at(a) == m0.byte_at(a)
}

/// The breakpoint pattern is present over the `len` bytes at `addr`.
pub open spec fn armed_at(m: UserMemory, addr: usize, len: usize) -> bool {
    forall|i: int| 0 <= i < len ==> #[trigger] m.byte_at(addr + i) == ebreak_byte(i)
}

/// The `len` bytes at `slot` in `m1` hold what the `len` bytes at `addr`
/// held in `m0`.
pub open spec fn slot_copied(m1: UserMemory, m0: UserMemory, slot: usize, addr: usize, len: usize) -> bool {
    forall|i: int| 0 <= i < len ==> #[trigger] m1.byte_at(slot + i) == m0.byte_at(addr + i)
}

/// The `len` bytes at `addr` are the same in `m1` and `m0`.
pub open spec fn bytes_unchanged_at(m1: UserMemory, m0: UserMemory, addr: usize, len: int) -> bool {
    forall|i: int| 0 <= i < len ==> #[trigger] m1.byte_at(addr + i) == m0.byte_at(addr + i)
}

/// How materialization transforms a descriptor: `p1` is `p0` with the
/// trampoline and slot regions carved out of the fresh region at `a0`, the
/// probed instruction's decoded length, and, on success, the stack
/// adjustment of a function probe or the single-step trampoline of an
/// instruction probe.
pub open spec fn materialized_from(
    p0: ProbeView,
    p1: ProbeView,
    m0: UserMemory,
    a0: usize,
    ok: bool,
    sp: Option<usize>,
) -> bool {
    &&& p1.addr == p0.addr
    &&& p1.handler == p0.handler
    &&& p1.post_handler == p0.post_handler
    &&& p1.probe_type == p0.probe_type
    &&& p1.func_ra == p0.func_ra
    &&& p1.func_ebreak_addr == a0
    &&& p1.slot_addr == a0 + 2
    &&& p1.length == spec_probe_len(m0.byte_at(p0.addr as int))
    &&& p1.addisp == if p0.probe_type == ProbeType::SyncFunc && ok {
        sp.unwrap()
    } else {
        p0.addisp
    }
    &&& p1.insn_ebreak_addr == if p0.probe_type == ProbeType::Insn && ok {
        p1.slot_addr + p1.length
    } else {
        p0.insn_ebreak_addr as int
    }
}

/// Whether materializing this descriptor succeeds: an instruction probe
/// needs an instruction the decoder accepts for relocation, a function
/// probe needs the prologue scanner's stack adjustment, and an asynchronous
/// function probe always fails.
pub open spec fn spec_materialize_ok(p: ProbeView, m: UserMemory, sp_adjust: Option<usize>) -> bool {
    match p.probe_type {
        ProbeType::Insn => spec_insn_legal(
            m.byte_at(p.addr as int),
            m.byte_at(p.addr + 1),
            m.byte_at(p.addr + 2),
            m.byte_at(p.addr + 3),
        ),
        ProbeType::SyncFunc => sp_adjust is Some,
        ProbeType::AsyncFunc => false,
    }
}

/// The result materialization returns for a descriptor: success, or the
/// error kind its probe type fails with.
pub open spec fn spec_materialize_result(
    p: ProbeView,
    m: UserMemory,
    sp_adjust: Option<usize>,
) -> Result<(), UprobeError> {
    if spec_materialize_ok(p, m, sp_adjust) {
        Result::Ok(())
    } else {
        Result::Err(
            match p.probe_type {
                ProbeType::Insn => UprobeError::IllegalInstruction,
                ProbeType::SyncFunc => UprobeError::MissingStackAdjustment,
                ProbeType::AsyncFunc => UprobeError::Unimplemented,
            },
        )
    }
}

impl UprobesInner {
    /// Constructs an unmaterialized descriptor for a probe at `addr`.
    pub fn new(
        addr: usize,
        handler: usize,
        post_handler: Option<usize>,
        probe_type: ProbeType,
    ) -> (r: Option<UprobesInner>)
        ensures
            r matches Some(p) && p@ == fresh_probe(addr, handler, post_handler, probe_type),
    {
        Some(
            UprobesInner {
                addr,
                length: 0,
                slot_addr: 0,
                addisp: 0,
                func_ra: Vec::new(),
                func_ebreak_addr: 0,
                insn_ebreak_addr: 0,
                handler,
                post_handler,
                probe_type,
            },
        )
    }

    /// A copy of the descriptor with an empty call-return stack, filed
    /// into the active registry when an invocation begins.
    fn snapshot(&self) -> (r: UprobesInner)
        ensures
            r@ == with_stack(self@, Seq::<usize>::empty()),
    {
        UprobesInner {
            addr: self.addr,
            length: self.length,
            slot_addr: self.slot_addr,
            addisp: self.addisp,
            func_ra: Vec::new(),
            func_ebreak_addr: self.func_ebreak_addr,
            insn_ebreak_addr: self.insn_ebreak_addr,
            handler: self.handler,
            post_handler: self.post_handler,
            probe_type: self.probe_type,
        }
    }

    /// Installs the breakpoint encoding over the probed instruction, one
    /// `c.ebreak` per two bytes of its length.  The host must follow every
    /// patch with its instruction-cache synchronization barrier before the
    /// target resumes.
    pub fn arm(&self, mem: &mut UserMemory)
        requires
            self.length == 2 || self.length == 4,
            old(mem).covers(self.addr as int, self.length as int),
        ensures
            arm_rel(self@, *old(mem), *final(mem)),
    {
        let mut pattern: Vec<u8> = Vec::new();
        pattern.push(EBREAK_BYTE_EVEN);
        pattern.push(EBREAK_BYTE_ODD);
        if self.length == 4 {
            pattern.push(EBREAK_BYTE_EVEN);
            pattern.push(EBREAK_BYTE_ODD);
        }
        proof {
            assert(forall|i: int|
                0 <= i < pattern@.len() ==> pattern@[i] == ebreak_byte(i)) by {
                assert(pattern@[0] == ebreak_byte(0));
                assert(pattern@[1] == ebreak_byte(1));
                if pattern@.len() == 4 {
                    assert(pattern@[2] == ebreak_byte(2));
                    assert(pattern@[3] == ebreak_byte(3));
                }
            }
        }
        mem.write_bytes(self.addr, &pattern);
    }

    /// Restores the original instruction at the probe point from the
    /// out-of-line slot.  The host must follow the patch with its
    /// instruction-cache synchronization barrier before the target resumes.
    pub fn disarm(&self, mem: &mut UserMemory)
        requires
            self.length == 2 || self.length == 4,
            old(mem).covers(self.addr as int, self.length as int),
            old(mem).covers(self.slot_addr as int, self.length as int),
        ensures
            disarm_rel(self@, *old(mem), *final(mem)),
    {
        let original = mem.read_bytes(self.slot_addr, self.length);
        mem.write_bytes(self.addr, &original);
        proof {
            assert forall|i: int|
                0 <= i < self.length implies #[trigger] mem.byte_at(
                self.addr + i,
            ) == old(mem).byte_at(self.slot_addr + i) by {
                assert(mem.byte_at(self.addr + i) == original@[i]);
                assert(original@[i] == old(mem).byte_at(self.slot_addr + i));
            }
        }
    }
    /// Materializes the descriptor for the currently executing image:
    /// allocates the function trampoline and the out-of-line slot, copies
    /// the original instruction into the slot, decodes its length, prepares
    /// the trampoline breakpoints, and arms the probe point.  On failure
    /// (an instruction the decoder rejects, a missing stack adjustment, or
    /// an asynchronous function probe) the probe point is left unarmed and
    /// the descriptor stays registered.  `sp_adjust` is the prologue
    /// scanner's answer for this address; only function probes consult it.
    pub fn add_uprobepoint(
        &mut self,
        mem: &mut UserMemory,
        alloc: &mut PageAllocator,
        sp_adjust: Option<usize>,
    ) -> (r: Result<(), UprobeError>)
        requires
            old(mem).wf(),
            old(mem).covers(old(self).addr as int, 4),
            old(alloc).next + 8 <= usize::MAX,
            old(mem).covers(old(alloc).next as int, 8),
            old(self).addr + 4 <= old(alloc).next,
        ensures
            final(mem).wf(),
            final(mem).base == old(mem).base,
            final(mem).bytes@.len() == old(mem).bytes@.len(),
            final(alloc).next == old(alloc).next + 8,
            final(self).addr == old(self).addr,
            final(self).handler == old(self).handler,
            final(self).post_handler == old(self).post_handler,
            final(self).probe_type == old(self).probe_type,
            final(self).func_ra@ == old(self).func_ra@,
            final(self).func_ebreak_addr == old(alloc).next,
            final(self).slot_addr == old(alloc).next + 2,
            final(self).length == spec_probe_len(old(mem).byte_at(old(self).addr as int)),
            // the slot holds a copy of the probed instruction
            forall|i: int|
                0 <= i < final(self).length ==> #[trigger] final(mem).byte_at(
                    final(self).slot_addr + i,
                ) == old(mem).byte_at(old(self).addr + i),
            // success is decided by the probe kind, the decoder and the
            // prologue scanner
            r == if spec_materialize_ok(old(self)@, *old(mem), sp_adjust) {
                Result::<(), UprobeError>::Ok(())
            } else {
                Result::<(), UprobeError>::Err(
                    match old(self).probe_type {
                        ProbeType::Insn => UprobeError::IllegalInstruction,
                        ProbeType::SyncFunc => UprobeError::MissingStackAdjustment,
                        ProbeType::AsyncFunc => UprobeError::Unimplemented,
                    },
                )
            },
            // on success the probe point is armed ...
            r is Ok ==> forall|i: int|
                0 <= i < final(self).length ==> #[trigger] final(mem).byte_at(
                    old(self).addr + i,
                ) == ebreak_byte(i),
            // ... and on failure it is untouched
            r is Err ==> forall|i: int|
                0 <= i < 4 ==> #[trigger] final(mem).byte_at(old(self).addr + i) == old(
                    mem,
                ).byte_at(old(self).addr + i),
            // an instruction probe gains its single-step trampoline just
            // past the relocated instruction
            old(self).probe_type == ProbeType::Insn && r is Ok ==> final(self).insn_ebreak_addr
                == final(self).slot_addr + final(self).length && forall|i: int|
                0 <= i < 2 ==> #[trigger] final(mem).byte_at(
                    final(self).insn_ebreak_addr + i,
                ) == ebreak_byte(i),
            !(old(self).probe_type == ProbeType::Insn && r is Ok) ==> final(self).insn_ebreak_addr
                == old(self).insn_ebreak_addr,
            // a function probe gains its return trampoline and the stack
            // adjustment
            old(self).probe_type == ProbeType::SyncFunc ==> forall|i: int|
                0 <= i < 2 ==> #[trigger] final(mem).byte_at(
                    final(self).func_ebreak_addr + i,
                ) == ebreak_byte(i),
            final(self).addisp == if old(self).probe_type == ProbeType::SyncFunc && r is Ok {
                sp_adjust.unwrap()
            } else {
                old(self).addisp
            },
            // bytes outside the fresh regions and the probe point are
            // untouched
            forall|a: int|
                old(mem).covers(a, 1) && !(old(alloc).next <= a < old(alloc).next + 8) && !(old(
                    self,
                ).addr <= a < old(self).addr + 4) ==> final(mem).byte_at(a) == old(mem).byte_at(a),
    {
        let func_ebreak: usize = alloc.allocate(2);
        let slot: usize = alloc.allocate(6);
        self.func_ebreak_addr = func_ebreak;
        self.slot_addr = slot;

        let b0 = mem.read_byte(self.addr);
        let b1 = mem.read_byte(self.addr + 1);
        let halfword: u16 = (b0 as u16) | ((b1 as u16) << 8);
        proof {
            assert((((b0 as u16) | ((b1 as u16) << 8)) & 0b11 == 0b11) == ((b0 & 0b11) == 0b11))
                by (bit_vector);
        }
        let length = get_insn_length(halfword);
        self.length = length;

        // save the probed instruction into the out-of-line slot
        let original = mem.read_bytes(self.addr, length);
        mem.write_bytes(slot, &original);
        proof {
            assert forall|i: int|
                0 <= i < length implies #[trigger] mem.byte_at(slot + i) == old(mem).byte_at(
                self.addr + i,
            ) by {
                assert(mem.byte_at(slot + i) == original@[i]);
            }
        }
        let ghost m_copied = *mem;

        let mut ebreak_pair: Vec<u8> = Vec::new();
        ebreak_pair.push(EBREAK_BYTE_EVEN);
        ebreak_pair.push(EBREAK_BYTE_ODD);
        proof {
            assert(ebreak_pair@[0] == ebreak_byte(0));
            assert(ebreak_pair@[1] == ebreak_byte(1));
        }

        match self.probe_type {
            ProbeType::Insn => {
                let w0 = mem.read_byte(self.addr);
                let w1 = mem.read_byte(self.addr + 1);
                let w2 = mem.read_byte(self.addr + 2);
                let w3 = mem.read_byte(self.addr + 3);
                match insn_decode(&[w0, w1, w2, w3]) {
                    InsnStatus::Legal => {
                        mem.write_bytes(slot + length, &ebreak_pair);
                        self.insn_ebreak_addr = slot + length;
                        self.arm(mem);
                        proof {
                            assert forall|i: int|
                                0 <= i < length implies #[trigger] mem.byte_at(
                                slot + i,
                            ) == old(mem).byte_at(self.addr + i) by {
                                assert(m_copied.covers(slot + i, 1));
                                assert(!(slot + length <= slot + i < slot + length + 2));
                                assert(!(self.addr <= slot + i < self.addr + self.length));
                                assert(mem.byte_at(slot + i) == m_copied.byte_at(slot + i));
                            }
                            assert forall|i: int|
                                0 <= i < 2 implies #[trigger] mem.byte_at(
                                slot + length + i,
                            ) == ebreak_byte(i) by {
                                assert(m_copied.covers(slot + length + i, 1));
                                assert(!(self.addr <= slot + length + i < self.addr
                                    + self.length));
                            }
                        }
                        Ok(())
                    },
                    InsnStatus::Illegal => Err(UprobeError::IllegalInstruction),
                }
            },
            ProbeType::SyncFunc => {
                mem.write_bytes(func_ebreak, &ebreak_pair);
                match sp_adjust {
                    Some(sp) => {
                        self.addisp = sp;
                        self.arm(mem);
                        proof {
                            assert forall|i: int|
                                0 <= i < length implies #[trigger] mem.byte_at(
                                slot + i,
                            ) == old(mem).byte_at(self.addr + i) by {
                                assert(m_copied.covers(slot + i, 1));
                                assert(!(func_ebreak <= slot + i < func_ebreak + 2));
                                assert(!(self.addr <= slot + i < self.addr + self.length));
                                assert(mem.byte_at(slot + i) == m_copied.byte_at(slot + i));
                            }
                            assert forall|i: int|
                                0 <= i < 2 implies #[trigger] mem.byte_at(
                                func_ebreak + i,
                            ) == ebreak_byte(i) by {
                                assert(m_copied.covers(func_ebreak + i, 1));
                                assert(!(self.addr <= func_ebreak + i < self.addr
                                    + self.length));
                            }
                        }
                        Ok(())
                    },
                    None => Err(UprobeError::MissingStackAdjustment),
                }
            },
            ProbeType::AsyncFunc => Err(UprobeError::Unimplemented),
        }
    }
}

/// The conditions under which every descriptor of registry `u` can be
/// re-materialized: the span covers each probe point and the fresh regions
/// starting at `next`, the fresh regions fit in the machine word, every
/// probe point lies below them, and probed instructions do not overlap.
pub open spec fn rematerialize_pre(u: Uprobes, m: UserMemory, next: usize) -> bool {
    &&& m.wf()
    &&& forall|i: int|
        0 <= i < u.inner@.len() ==> m.covers((#[trigger] u.inner@[i]).addr as int, 4)
    &&& forall|i: int| 0 <= i < u.inner@.len() ==> (#[trigger] u.inner@[i]).addr + 4 <= next
    &&& forall|i: int, j: int|
        0 <= i < u.inner@.len() && 0 <= j < u.inner@.len() && i != j ==> u.inner@[i].addr + 4
            <= u.inner@[j].addr || u.inner@[j].addr + 4 <= u.inner@[i].addr
    &&& next + 8 * u.inner@.len() <= usize::MAX
    &&& m.covers(next as int, 8 * u.inner@.len() as int)
}

/// The complete effect of re-materializing registry `u0` into `u1` over
/// memory `m0`, leaving `m1`: every descriptor is rebuilt into the fresh
/// region at `next0 + 8 * i`, its slot holds a copy of the probed
/// instruction, and its probe point is armed exactly when its
/// materialization succeeds.
pub open spec fn all_rematerialized(
    u0: Uprobes,
    u1: Uprobes,
    m0: UserMemory,
    m1: UserMemory,
    next0: usize,
    oracle: StackAdjustOracle,
) -> bool {
    &&& m1.wf()
    &&& m1.base == m0.base
    &&& m1.bytes@.len() == m0.bytes@.len()
    &&& u1.inner@.len() == u0.inner@.len()
    &&& forall|i: int|
        0 <= i < u0.inner@.len() ==> materialized_from(
            u0.inner@[i]@,
            (#[trigger] u1.inner@[i])@,
            m0,
            (next0 + 8 * i) as usize,
            spec_materialize_ok(u0.inner@[i]@, m0, oracle.spec_get_sp(u0.inner@[i].addr)),
            oracle.spec_get_sp(u0.inner@[i].addr),
        )
    &&& forall|i: int|
        0 <= i < u0.inner@.len() ==> slot_copied(
            m1,
            m0,
            (#[trigger] u1.inner@[i]).slot_addr,
            u0.inner@[i].addr,
            u1.inner@[i].length,
        )
    &&& forall|i: int|
        0 <= i < u0.inner@.len() && spec_materialize_ok(
            (#[trigger] u0.inner@[i])@,
            m0,
            oracle.spec_get_sp(u0.inner@[i].addr),
        ) ==> armed_at(m1, u0.inner@[i].addr, u1.inner@[i].length)
    &&& forall|i: int|
        0 <= i < u0.inner@.len() && !spec_materialize_ok(
            (#[trigger] u0.inner@[i])@,
            m0,
            oracle.spec_get_sp(u0.inner@[i].addr),
        ) ==> bytes_unchanged_at(m1, m0, u0.inner@[i].addr, 4)
}

/// The probe registry of one process image: at most one descriptor per
/// probed address.
pub struct Uprobes {
    /// The registered descriptors, in registration order.
    pub inner: Vec<UprobesInner>,
}

impl Uprobes {
    /// Whether some descriptor is registered at address `a`.
    pub open spec fn has_addr(self, a: usize) -> bool {
        exists|i: int| 0 <= i < self.inner@.len() && self.inner@[i].addr == a
    }

    /// The position of the descriptor registered at address `a`.
    pub open spec fn addr_index(self, a: usize) -> int {
        choose|i: int| 0 <= i < self.inner@.len() && self.inner@[i].addr == a
    }

    /// The descriptor registered at address `a`.
    pub open spec fn probe_at(self, a: usize) -> ProbeView {
        self.inner@[self.addr_index(a)]@
    }

    /// The registry's invariant: descriptor addresses are distinct, no
    /// registered descriptor carries unfinished invocations or probes an
    /// asynchronous function, and every probed instruction fits below the
    /// top of the address space.
    pub open spec fn wf(self) -> bool {
        &&& forall|i: int, j: int|
            0 <= i < j < self.inner@.len() ==> self.inner@[i].addr != self.inner@[j].addr
        &&& forall|i: int|
            0 <= i < self.inner@.len() ==> (#[trigger] self.inner@[i]).func_ra@.len() == 0
                && self.inner@[i].probe_type != ProbeType::AsyncFunc && self.inner@[i].addr + 4
                <= usize::MAX
    }

    /// An empty registry.
    pub fn new() -> (r: Uprobes)
        ensures
            r.wf(),
            r.inner@.len() == 0,
    {
        Uprobes { inner: Vec::new() }
    }

    /// The position of the descriptor at `addr`, if one is registered.
    fn position_of(&self, addr: usize) -> (r: Option<usize>)
        ensures
            r matches Some(i) ==> i < self.inner@.len() && self.inner@[i as int].addr == addr,
            r is None ==> !self.has_addr(addr),
    {
        let mut i: usize = 0;
        while i < self.inner.len()
            invariant
                0 <= i <= self.inner@.len(),
                forall|j: int| 0 <= j < i ==> self.inner@[j].addr != addr,
            decreases self.inner@.len() - i,
        {
            if self.inner[i].addr == addr {
                return Some(i);
            }
            i = i + 1;
        }
        None
    }

    /// Registers a probe at `addr`, updating the existing descriptor if one
    /// is already registered there rather than adding a second one.
    /// Probing an asynchronous function is refused here, at registration
    /// time, so that the request fails loudly instead of stalling the
    /// probed process at trap time.  Returns 1 on success and -1 on
    /// refusal.
    pub fn register_uprobe(
        &mut self,
        addr: usize,
        handler: usize,
        post_handler: Option<usize>,
        probe_type: ProbeType,
    ) -> (r: isize)
        requires
            old(self).wf(),
            addr + 4 <= usize::MAX,
        ensures
            final(self).wf(),
            probe_type == ProbeType::AsyncFunc ==> r == -1,
            probe_type == ProbeType::AsyncFunc ==> final(self).inner@ == old(self).inner@,
            probe_type != ProbeType::AsyncFunc ==> r == 1,
            probe_type != ProbeType::AsyncFunc ==> final(self).has_addr(addr),
            probe_type != ProbeType::AsyncFunc ==> final(self).probe_at(addr) == fresh_probe(
                addr,
                handler,
                post_handler,
                probe_type,
            ),
            // update, never duplicate: a second registration at the same
            // address replaces the first descriptor
            probe_type != ProbeType::AsyncFunc && old(self).has_addr(addr)
                ==> final(self).inner@.len() == old(self).inner@.len(),
            probe_type != ProbeType::AsyncFunc && !old(self).has_addr(addr)
                ==> final(self).inner@.len() == old(self).inner@.len() + 1,
            forall|b: usize| b != addr ==> (final(self).has_addr(b) <==> old(self).has_addr(b)),
            forall|b: usize|
                b != addr && old(self).has_addr(b) ==> final(self).probe_at(b) == old(
                    self,
                ).probe_at(b),
    {
        if probe_type == ProbeType::AsyncFunc {
            return -1;
        }
        let probe = UprobesInner::new(addr, handler, post_handler, probe_type);
        match probe {
            Some(p) => {
                match self.position_of(addr) {
                    Some(i) => {
                        let ghost s0 = self.inner@;
                        let _replaced = self.inner.remove(i);
                        self.inner.insert(i, p);
                        proof {
                            assert(self.inner@ =~= s0.update(i as int, self.inner@[i as int]));
                            lemma_uprobes_update(
                                *old(self),
                                *self,
                                i as int,
                                addr,
                                fresh_probe(addr, handler, post_handler, probe_type),
                            );
                        }
                    },
                    None => {
                        let ghost s0 = self.inner@;
                        self.inner.push(p);
                        proof {
                            lemma_uprobes_push(
                                *old(self),
                                *self,
                                addr,
                                fresh_probe(addr, handler, post_handler, probe_type),
                            );
                        }
                    },
                }
                1
            },
            None => -1,
        }
    }

    /// Removes and returns the descriptor registered at `addr`, leaving
    /// every other descriptor untouched.
    pub fn remove_uprobe(&mut self, addr: usize) -> (r: Option<UprobesInner>)
        requires
            old(self).wf(),
        ensures
            final(self).wf(),
            !old(self).has_addr(addr) ==> r is None && final(self).inner@ == old(self).inner@,
            old(self).has_addr(addr) ==> (r matches Some(p) && p@ == old(self).probe_at(addr))
                && !final(self).has_addr(addr) && final(self).inner@.len() == old(
                self,
            ).inner@.len() - 1,
            forall|b: usize| b != addr ==> (final(self).has_addr(b) <==> old(self).has_addr(b)),
            forall|b: usize|
                b != addr && old(self).has_addr(b) ==> final(self).probe_at(b) == old(
                    self,
                ).probe_at(b),
    {
        match self.position_of(addr) {
            Some(i) => {
                proof {
                    lemma_addr_index_of(*self, i as int);
                }
                let ghost u0 = *self;
                let removed = self.inner.remove(i);
                proof {
                    lemma_uprobes_remove(u0, *self, i as int);
                }
                Some(removed)
            },
            None => None,
        }
    }

    /// Materializes the one descriptor registered at `addr`, leaving every
    /// other descriptor untouched.  Used when a probe is registered for the
    /// image that is already executing.
    pub fn add_uprobepoint_at(
        &mut self,
        addr: usize,
        mem: &mut UserMemory,
        alloc: &mut PageAllocator,
        sp_adjust: Option<usize>,
    ) -> (r: Result<(), UprobeError>)
        requires
            old(self).wf(),
            old(self).has_addr(addr),
            old(mem).wf(),
            old(mem).covers(addr as int, 4),
            old(alloc).next + 8 <= usize::MAX,
            old(mem).covers(old(alloc).next as int, 8),
            addr + 4 <= old(alloc).next,
        ensures
            final(self).wf(),
            final(mem).wf(),
            final(mem).base == old(mem).base,
            final(mem).bytes@.len() == old(mem).bytes@.len(),
            final(alloc).next == old(alloc).next + 8,
            final(self).inner@.len() == old(self).inner@.len(),
            final(self).has_addr(addr),
            forall|b: usize| b != addr ==> (final(self).has_addr(b) <==> old(self).has_addr(b)),
            forall|b: usize|
                b != addr && old(self).has_addr(b) ==> final(self).probe_at(b) == old(
                    self,
                ).probe_at(b),
            r == spec_materialize_result(old(self).probe_at(addr), *old(mem), sp_adjust),
            materialized_from(
                old(self).probe_at(addr),
                final(self).probe_at(addr),
                *old(mem),
                old(alloc).next,
                r is Ok,
                sp_adjust,
            ),
            slot_copied(
                *final(mem),
                *old(mem),
                final(self).probe_at(addr).slot_addr,
                addr,
                final(self).probe_at(addr).length,
            ),
            r is Ok ==> armed_at(*final(mem), addr, final(self).probe_at(addr).length),
            r is Err ==> bytes_unchanged_at(*final(mem), *old(mem), addr, 4),
            old(self).probe_at(addr).probe_type == ProbeType::Insn && r is Ok ==> armed_at(
                *final(mem),
                final(self).probe_at(addr).insn_ebreak_addr,
                2,
            ),
            old(self).probe_at(addr).probe_type == ProbeType::SyncFunc ==> armed_at(
                *final(mem),
                final(self).probe_at(addr).func_ebreak_addr,
                2,
            ),
            forall|a: int|
                old(mem).covers(a, 1) && !(old(alloc).next <= a < old(alloc).next + 8) && !(addr
                    <= a < addr + 4) ==> final(mem).byte_at(a) == old(mem).byte_at(a),
    {
        match self.position_of(addr) {
            Some(i) => {
                proof {
                    lemma_addr_index_of(*self, i as int);
                }
                let ghost s0 = self.inner@;
                let mut p = self.inner.remove(i);
                let r = p.add_uprobepoint(mem, alloc, sp_adjust);
                self.inner.insert(i, p);
                proof {
                    assert(self.inner@ =~= s0.update(i as int, self.inner@[i as int]));
                    lemma_uprobes_update(
                        *old(self),
                        *self,
                        i as int,
                        addr,
                        self.inner@[i as int]@,
                    );
                }
                r
            },
            None => Err(UprobeError::InitializationFailure),
        }
    }

    /// Materializes every registered descriptor, as done when the owning
    /// image starts executing: each probe receives a freshly allocated
    /// trampoline and slot region, and every probe whose materialization
    /// succeeds is armed.  A descriptor whose materialization fails stays
    /// registered and unarmed, and the remaining descriptors are still
    /// processed.
    pub fn add_uprobepoint(
        &mut self,
        mem: &mut UserMemory,
        alloc: &mut PageAllocator,
        oracle: &StackAdjustOracle,
    )
        requires
            old(self).wf(),
            rematerialize_pre(*old(self), *old(mem), old(alloc).next),
        ensures
            final(self).wf(),
            final(alloc).next == old(alloc).next + 8 * old(self).inner@.len(),
            all_rematerialized(
                *old(self),
                *final(self),
                *old(mem),
                *final(mem),
                old(alloc).next,
                *oracle,
            ),
    {
        let ghost s_orig = old(self).inner@;
        let ghost m0 = *old(mem);
        let ghost next0 = old(alloc).next;
        let n = self.inner.len();
        let mut i: usize = 0;
        while i < n
            invariant
                n == s_orig.len(),
                0 <= i <= n,
                self.inner@.len() == n,
                mem.wf(),
                mem.base == m0.base,
                mem.bytes@.len() == m0.bytes@.len(),
                alloc.next == next0 + 8 * i,
                next0 + 8 * n <= usize::MAX,
                m0.wf(),
                m0.covers(next0 as int, 8 * n as int),
                forall|j: int| 0 <= j < n ==> m0.covers((#[trigger] s_orig[j]).addr as int, 4),
                forall|j: int| 0 <= j < n ==> (#[trigger] s_orig[j]).addr + 4 <= next0,
                forall|j: int, k: int|
                    0 <= j < n && 0 <= k < n && j != k ==> s_orig[j].addr + 4 <= s_orig[k].addr
                        || s_orig[k].addr + 4 <= s_orig[j].addr,
                forall|j: int| 0 <= j < n ==> (#[trigger] s_orig[j]).func_ra@.len() == 0
                    && s_orig[j].probe_type != ProbeType::AsyncFunc,
                forall|j: int, k: int|
                    0 <= j < k < n ==> s_orig[j].addr != s_orig[k].addr,
                // descriptors not yet processed are untouched
                forall|j: int| i <= j < n ==> self.inner@[j] == s_orig[j],
                // processed descriptors are materialized
                forall|j: int|
                    0 <= j < i ==> materialized_from(
                        s_orig[j]@,
                        (#[trigger] self.inner@[j])@,
                        m0,
                        (next0 + 8 * j) as usize,
                        spec_materialize_ok(s_orig[j]@, m0, oracle.spec_get_sp(s_orig[j].addr)),
                        oracle.spec_get_sp(s_orig[j].addr),
                    ),
                forall|j: int|
                    0 <= j < i ==> slot_copied(
                        *mem,
                        m0,
                        (#[trigger] self.inner@[j]).slot_addr,
                        s_orig[j].addr,
                        self.inner@[j].length,
                    ),
                forall|j: int|
                    0 <= j < i && spec_materialize_ok(
                        (#[trigger] s_orig[j])@,
                        m0,
                        oracle.spec_get_sp(s_orig[j].addr),
                    ) ==> armed_at(*mem, s_orig[j].addr, self.inner@[j].length),
                forall|j: int|
                    0 <= j < i && !spec_materialize_ok(
                        (#[trigger] s_orig[j])@,
                        m0,
                        oracle.spec_get_sp(s_orig[j].addr),
                    ) ==> bytes_unchanged_at(*mem, m0, s_orig[j].addr, 4),
                // everything below the fresh regions and outside the
                // processed probe points is untouched
                forall|a: int|
                    m0.covers(a, 1) && a < next0 && (forall|j: int|
                        0 <= j < i ==> !((#[trigger] s_orig[j]).addr <= a < s_orig[j].addr + 4))
                        ==> #[trigger] mem.byte_at(a) == m0.byte_at(a),
            decreases n - i,
        {
            let ghost m_before = *mem;
            let sp = oracle.get_sp(self.inner[i].addr);
            let ghost s_before = self.inner@;
            let mut p = self.inner.remove(i);
            proof {
                // the probed bytes are still what they were at entry
                assert forall|k: int|
                    0 <= k < 4 implies #[trigger] m_before.byte_at(
                    s_orig[i as int].addr + k,
                ) == m0.byte_at(s_orig[i as int].addr + k) by {
                    let a = s_orig[i as int].addr + k;
                    assert(m0.covers(a, 1));
                    assert(a < next0);
                    assert forall|j: int|
                        0 <= j < i implies !((#[trigger] s_orig[j]).addr <= a < s_orig[j].addr
                        + 4) by {
                        assert(s_orig[j].addr + 4 <= s_orig[i as int].addr || s_orig[i as int].addr
                            + 4 <= s_orig[j].addr);
                    }
                }
            }
            let result = p.add_uprobepoint(mem, alloc, sp);
            self.inner.insert(i, p);
            proof {
                assert(self.inner@ =~= s_before.update(i as int, self.inner@[i as int]));
                let pi0 = s_orig[i as int];
                let ok = spec_materialize_ok(pi0@, m0, oracle.spec_get_sp(pi0.addr));
                assert(spec_materialize_ok(pi0@, m_before, oracle.spec_get_sp(pi0.addr)) == ok);
                assert(result is Ok <==> ok);
                assert(spec_probe_len(m_before.byte_at(pi0.addr as int)) == spec_probe_len(
                    m0.byte_at(pi0.addr as int),
                ));
                assert(materialized_from(
                    pi0@,
                    self.inner@[i as int]@,
                    m0,
                    (next0 + 8 * i) as usize,
                    ok,
                    oracle.spec_get_sp(pi0.addr),
                ));
                // earlier probes' bytes are untouched by this step
                assert forall|j: int|
                    0 <= j < i + 1 implies slot_copied(
                    *mem,
                    m0,
                    (#[trigger] self.inner@[j]).slot_addr,
                    s_orig[j].addr,
                    self.inner@[j].length,
                ) by {
                    if j < i {
                        let slot = self.inner@[j].slot_addr;
                        let len = self.inner@[j].length;
                        assert forall|k: int|
                            0 <= k < len implies #[trigger] mem.byte_at(slot + k) == m0.byte_at(
                            s_orig[j].addr + k,
                        ) by {
                            assert(next0 <= slot + k < next0 + 8 * i);
                            assert(m_before.covers(slot + k, 1));
                            assert(mem.byte_at(slot + k) == m_before.byte_at(slot + k));
                        }
                    } else {
                        assert forall|k: int|
                            0 <= k < self.inner@[j].length implies #[trigger] mem.byte_at(
                            self.inner@[j].slot_addr + k,
                        ) == m0.byte_at(s_orig[j].addr + k) by {
                            assert(mem.byte_at(self.inner@[j].slot_addr + k) == m_before.byte_at(
                                pi0.addr + k,
                            ));
                        }
                    }
                }
                assert forall|j: int|
                    0 <= j < i + 1 && spec_materialize_ok(
                        (#[trigger] s_orig[j])@,
                        m0,
                        oracle.spec_get_sp(s_orig[j].addr),
                    ) implies armed_at(*mem, s_orig[j].addr, self.inner@[j].length) by {
                    if j < i {
                        assert forall|k: int|
                            0 <= k < self.inner@[j].length implies #[trigger] mem.byte_at(
                            s_orig[j].addr + k,
                        ) == ebreak_byte(k) by {
                            let a = s_orig[j].addr + k;
                            assert(m_before.covers(a, 1));
                            assert(s_orig[j].addr + 4 <= pi0.addr || pi0.addr + 4 <= s_orig[j].addr);
                            assert(a < next0 + 8 * i);
                            assert(mem.byte_at(a) == m_before.byte_at(a));
                        }
                    }
                }
                assert forall|j: int|
                    0 <= j < i + 1 && !spec_materialize_ok(
                        (#[trigger] s_orig[j])@,
                        m0,
                        oracle.spec_get_sp(s_orig[j].addr),
                    ) implies bytes_unchanged_at(*mem, m0, s_orig[j].addr, 4) by {
                    if j < i {
                        assert forall|k: int|
                            0 <= k < 4 implies #[trigger] mem.byte_at(s_orig[j].addr + k)
                            == m0.byte_at(s_orig[j].addr + k) by {
                            let a = s_orig[j].addr + k;
                            assert(m_before.covers(a, 1));
                            assert(s_orig[j].addr + 4 <= pi0.addr || pi0.addr + 4 <= s_orig[j].addr);
                            assert(a < next0 + 8 * i);
                            assert(mem.byte_at(a) == m_before.byte_at(a));
                        }
                    } else {
                        assert(bytes_unchanged_at(*mem, m_before, s_orig[j].addr, 4));
                        assert forall|k: int|
                            0 <= k < 4 implies #[trigger] mem.byte_at(s_orig[j].addr + k)
                            == m0.byte_at(s_orig[j].addr + k) by {
                            assert(mem.byte_at(s_orig[j].addr + k) == m_before.byte_at(
                                s_orig[j].addr + k,
                            ));
                        }
                    }
                }
                assert forall|a: int|
                    m0.covers(a, 1) && a < next0 && (forall|j: int|
                        0 <= j < i + 1 ==> !((#[trigger] s_orig[j]).addr <= a < s_orig[j].addr
                            + 4)) implies #[trigger] mem.byte_at(a) == m0.byte_at(a) by {
                    assert(!(pi0.addr <= a < pi0.addr + 4));
                    assert(m_before.covers(a, 1));
                    assert(mem.byte_at(a) == m_before.byte_at(a));
                    assert forall|j: int|
                        0 <= j < i implies !((#[trigger] s_orig[j]).addr <= a < s_orig[j].addr
                        + 4) by {}
                    assert(m_before.byte_at(a) == m0.byte_at(a));
                }
            }
            i = i + 1;
        }
        proof {
            assert forall|j: int, k: int|
                0 <= j < k < self.inner@.len() implies self.inner@[j].addr != self.inner@[k].addr by {
                assert(self.inner@[j].addr == s_orig[j].addr);
                assert(self.inner@[k].addr == s_orig[k].addr);
            }
        }
    }
}

/// Replacing the descriptor at position `i` with one at the same address
/// keeps the registry well-formed and leaves every other address's
/// descriptor untouched.
proof fn lemma_uprobes_update(u0: Uprobes, u1: Uprobes, i: int, addr: usize, p: ProbeView)
    requires
        u0.wf(),
        0 <= i < u0.inner@.len(),
        u0.inner@[i].addr == addr,
        u1.inner@.len() == u0.inner@.len(),
        u1.inner@[i]@ == p,
        p.addr == addr,
        p.func_ra.len() == 0,
        p.probe_type != ProbeType::AsyncFunc,
        addr + 4 <= usize::MAX,
        forall|j: int| 0 <= j < u0.inner@.len() && j != i ==> u1.inner@[j] == u0.inner@[j],
    ensures
        u1.wf(),
        u1.has_addr(addr),
        u1.probe_at(addr) == p,
        forall|b: usize| b != addr ==> (u1.has_addr(b) <==> u0.has_addr(b)),
        forall|b: usize| b != addr && u0.has_addr(b) ==> u1.probe_at(b) == u0.probe_at(b),
{
    assert(u1.inner@[i].addr == addr);
    assert(u1.wf());
    assert(u1.has_addr(addr));
    lemma_addr_index_of(u1, i);
    assert forall|b: usize| b != addr implies (u1.has_addr(b) <==> u0.has_addr(b)) by {
        if u0.has_addr(b) {
            let j = u0.addr_index(b);
            assert(u1.inner@[j].addr == b);
        }
        if u1.has_addr(b) {
            let j = u1.addr_index(b);
            assert(u0.inner@[j].addr == b);
        }
    }
    assert forall|b: usize| b != addr && u0.has_addr(b) implies u1.probe_at(b) == u0.probe_at(
        b,
    ) by {
        let j = u0.addr_index(b);
        lemma_addr_index_of(u1, j);
    }
}

/// Appending a descriptor at a fresh address keeps the registry
/// well-formed and leaves every other address's descriptor untouched.
proof fn lemma_uprobes_push(u0: Uprobes, u1: Uprobes, addr: usize, p: ProbeView)
    requires
        u0.wf(),
        !u0.has_addr(addr),
        u1.inner@.len() == u0.inner@.len() + 1,
        u1.inner@[u0.inner@.len() as int]@ == p,
        p.addr == addr,
        p.func_ra.len() == 0,
        p.probe_type != ProbeType::AsyncFunc,
        addr + 4 <= usize::MAX,
        forall|j: int| 0 <= j < u0.inner@.len() ==> u1.inner@[j] == u0.inner@[j],
    ensures
        u1.wf(),
        u1.has_addr(addr),
        u1.probe_at(addr) == p,
        forall|b: usize| b != addr ==> (u1.has_addr(b) <==> u0.has_addr(b)),
        forall|b: usize| b != addr && u0.has_addr(b) ==> u1.probe_at(b) == u0.probe_at(b),
{
    let n = u0.inner@.len() as int;
    assert(u1.inner@[n].addr == addr);
    assert forall|i: int, j: int|
        0 <= i < j < u1.inner@.len() implies u1.inner@[i].addr != u1.inner@[j].addr by {
        if j == n {
            assert(u1.inner@[i] == u0.inner@[i]);
            if u1.inner@[i].addr == addr {
                assert(u0.has_addr(addr));
            }
        }
    }
    assert(u1.wf());
    assert(u1.has_addr(addr));
    lemma_addr_index_of(u1, n);
    assert forall|b: usize| b != addr implies (u1.has_addr(b) <==> u0.has_addr(b)) by {
        if u0.has_addr(b) {
            let j = u0.addr_index(b);
            assert(u1.inner@[j].addr == b);
        }
        if u1.has_addr(b) {
            let j = u1.addr_index(b);
            assert(j != n);
            assert(u0.inner@[j].addr == b);
        }
    }
    assert forall|b: usize| b != addr && u0.has_addr(b) implies u1.probe_at(b) == u0.probe_at(
        b,
    ) by {
        let j = u0.addr_index(b);
        lemma_addr_index_of(u1, j);
    }
}

/// Descriptors at other addresses are untouched when the descriptor at
/// position `i` is removed.
proof fn lemma_uprobes_remove(u0: Uprobes, u1: Uprobes, i: int)
    requires
        u0.wf(),
        0 <= i < u0.inner@.len(),
        u1.inner@ == u0.inner@.remove(i),
    ensures
        u1.wf(),
        !u1.has_addr(u0.inner@[i].addr),
        forall|b: usize| b != u0.inner@[i].addr ==> (u1.has_addr(b) <==> u0.has_addr(b)),
        forall|b: usize|
            b != u0.inner@[i].addr && u0.has_addr(b) ==> u1.probe_at(b) == u0.probe_at(b),
{
    let a = u0.inner@[i].addr;
    assert(u1.inner@.len() == u0.inner@.len() - 1);
    assert forall|j: int| 0 <= j < u1.inner@.len() implies u1.inner@[j] == u0.inner@[
        if j < i {
            j
        } else {
            j + 1
        }
    ] by {}
    if u1.has_addr(a) {
        let j = u1.addr_index(a);
        if j < i {
            assert(u0.inner@[j].addr != u0.inner@[i].addr);
        } else {
            assert(u0.inner@[j + 1].addr != u0.inner@[i].addr);
        }
    }
    assert forall|b: usize| b != a implies (u1.has_addr(b) <==> u0.has_addr(b)) by {
        if u0.has_addr(b) {
            let j = u0.addr_index(b);
            assert(j != i);
            if j < i {
                assert(u1.inner@[j].addr == b);
            } else {
                assert(u1.inner@[j - 1].addr == b);
            }
        }
        if u1.has_addr(b) {
            let j = u1.addr_index(b);
            if j < i {
                assert(u0.inner@[j].addr == b);
            } else {
                assert(u0.inner@[j + 1].addr == b);
            }
        }
    }
    assert forall|b: usize| b != a && u0.has_addr(b) implies u1.probe_at(b) == u0.probe_at(b) by {
        let j = u0.addr_index(b);
        if j < i {
            lemma_addr_index_of(u1, j);
        } else {
            lemma_addr_index_of(u1, j - 1);
        }
    }
}

/// In a registry with distinct addresses, the descriptor found for the
/// address at position `i` is the one at position `i`.
proof fn lemma_addr_index_of(u: Uprobes, i: int)
    requires
        forall|k: int, l: int|
            0 <= k < l < u.inner@.len() ==> u.inner@[k].addr != u.inner@[l].addr,
        0 <= i < u.inner@.len(),
    ensures
        u.has_addr(u.inner@[i].addr),
        u.addr_index(u.inner@[i].addr) == i,
        u.probe_at(u.inner@[i].addr) == u.inner@[i]@,
{
    let a = u.inner@[i].addr;
    assert(u.has_addr(a));
    let j = u.addr_index(a);
    assert(0 <= j < u.inner@.len() && u.inner@[j].addr == a);
    if j < i {
        assert(u.inner@[j].addr != u.inner@[i].addr);
    } else if i < j {
        assert(u.inner@[i].addr != u.inner@[j].addr);
    }
}

/// One in-flight probe invocation: a descriptor snapshot filed under the
/// trampoline address at which the continuation will trap.
pub struct ActiveProbe {
    /// The trampoline address: the single-step completion marker of an
    /// instruction probe, or the substitute return address of a function
    /// probe.
    pub key: usize,
    /// The descriptor snapshot, carrying the call-return stack of a
    /// function probe.
    pub probe: UprobesInner,
}

/// The invariant of one active entry: an entry not keyed by its
/// single-step marker is a function-probe continuation, which exists only
/// while a post handler is attached and at least one invocation is
/// unfinished.
pub open spec fn active_entry_wf(key: usize, p: ProbeView) -> bool {
    &&& p.addr + 4 <= usize::MAX
    &&& p.length == 2 || p.length == 4
    &&& p.insn_ebreak_addr != key ==> p.post_handler is Some && p.func_ra.len() >= 1
}

/// The registry of in-flight probe invocations of one process image,
/// keyed by trampoline address.
pub struct CurrentUprobes {
    /// The in-flight entries, in creation order.
    pub inner: Vec<ActiveProbe>,
}

impl CurrentUprobes {
    /// Whether an in-flight entry is filed under trampoline address `k`.
    pub open spec fn has_key(self, k: usize) -> bool {
        exists|i: int| 0 <= i < self.inner@.len() && self.inner@[i].key == k
    }

    /// The position of the entry filed under `k`.
    pub open spec fn key_index(self, k: usize) -> int {
        choose|i: int| 0 <= i < self.inner@.len() && self.inner@[i].key == k
    }

    /// The descriptor snapshot filed under `k`.
    pub open spec fn entry_at(self, k: usize) -> ProbeView {
        self.inner@[self.key_index(k)].probe@
    }

    /// The registry's invariant: keys are distinct and every entry is a
    /// well-formed continuation.
    pub open spec fn wf(self) -> bool {
        &&& forall|i: int, j: int|
            0 <= i < j < self.inner@.len() ==> self.inner@[i].key != self.inner@[j].key
        &&& forall|i: int|
            0 <= i < self.inner@.len() ==> active_entry_wf(
                (#[trigger] self.inner@[i]).key,
                self.inner@[i].probe@,
            )
    }

    /// An empty registry.
    pub fn new() -> (r: CurrentUprobes)
        ensures
            r.wf(),
            r.inner@.len() == 0,
    {
        CurrentUprobes { inner: Vec::new() }
    }

    /// The position of the entry filed under `k`, if one exists.
    fn position_of_key(&self, k: usize) -> (r: Option<usize>)
        ensures
            r matches Some(i) ==> i < self.inner@.len() && self.inner@[i as int].key == k,
            r is None ==> !self.has_key(k),
    {
        let mut i: usize = 0;
        while i < self.inner.len()
            invariant
                0 <= i <= self.inner@.len(),
                forall|j: int| 0 <= j < i ==> self.inner@[j].key != k,
            decreases self.inner@.len() - i,
        {
            if self.inner[i].key == k {
                return Some(i);
            }
            i = i + 1;
        }
        None
    }

    /// Whether an in-flight entry is filed under `k`.
    pub fn contains_key(&self, k: usize) -> (r: bool)
        ensures
            r == self.has_key(k),
    {
        match self.position_of_key(k) {
            Some(_) => true,
            None => false,
        }
    }
}

/// In an active registry with distinct keys, the entry found for the key
/// at position `i` is the one at position `i`.
proof fn lemma_key_index_of(c: CurrentUprobes, i: int)
    requires
        forall|k: int, l: int| 0 <= k < l < c.inner@.len() ==> c.inner@[k].key != c.inner@[l].key,
        0 <= i < c.inner@.len(),
    ensures
        c.has_key(c.inner@[i].key),
        c.key_index(c.inner@[i].key) == i,
        c.entry_at(c.inner@[i].key) == c.inner@[i].probe@,
{
    let k = c.inner@[i].key;
    assert(c.has_key(k));
    let j = c.key_index(k);
    assert(0 <= j < c.inner@.len() && c.inner@[j].key == k);
    if j < i {
        assert(c.inner@[j].key != c.inner@[i].key);
    } else if i < j {
        assert(c.inner@[i].key != c.inner@[j].key);
    }
}

/// Entries under other keys are untouched when the entry at position `i`
/// is replaced by one under the same key.
proof fn lemma_active_update(c0: CurrentUprobes, c1: CurrentUprobes, i: int, k: usize)
    requires
        c0.wf(),
        0 <= i < c0.inner@.len(),
        c0.inner@[i].key == k,
        c1.inner@.len() == c0.inner@.len(),
        c1.inner@[i].key == k,
        active_entry_wf(k, c1.inner@[i].probe@),
        forall|j: int| 0 <= j < c0.inner@.len() && j != i ==> c1.inner@[j] == c0.inner@[j],
    ensures
        c1.wf(),
        c1.has_key(k),
        c1.entry_at(k) == c1.inner@[i].probe@,
        forall|b: usize| b != k ==> (c1.has_key(b) <==> c0.has_key(b)),
        forall|b: usize| b != k && c0.has_key(b) ==> c1.entry_at(b) == c0.entry_at(b),
{
    lemma_key_index_of(c1, i);
    assert forall|b: usize| b != k implies (c1.has_key(b) <==> c0.has_key(b)) by {
        if c0.has_key(b) {
            let j = c0.key_index(b);
            assert(c1.inner@[j].key == b);
        }
        if c1.has_key(b) {
            let j = c1.key_index(b);
            assert(c0.inner@[j].key == b);
        }
    }
    assert forall|b: usize| b != k && c0.has_key(b) implies c1.entry_at(b) == c0.entry_at(b) by {
        let j = c0.key_index(b);
        lemma_key_index_of(c1, j);
    }
}

/// Entries under other keys are untouched when an entry under a fresh key
/// is appended.
proof fn lemma_active_push(c0: CurrentUprobes, c1: CurrentUprobes, k: usize)
    requires
        c0.wf(),
        !c0.has_key(k),
        c1.inner@.len() == c0.inner@.len() + 1,
        c1.inner@[c0.inner@.len() as int].key == k,
        active_entry_wf(k, c1.inner@[c0.inner@.len() as int].probe@),
        forall|j: int| 0 <= j < c0.inner@.len() ==> c1.inner@[j] == c0.inner@[j],
    ensures
        c1.wf(),
        c1.has_key(k),
        c1.entry_at(k) == c1.inner@[c0.inner@.len() as int].probe@,
        forall|b: usize| b != k ==> (c1.has_key(b) <==> c0.has_key(b)),
        forall|b: usize| b != k && c0.has_key(b) ==> c1.entry_at(b) == c0.entry_at(b),
{
    let n = c0.inner@.len() as int;
    assert forall|i: int, j: int|
        0 <= i < j < c1.inner@.len() implies c1.inner@[i].key != c1.inner@[j].key by {
        if j == n {
            assert(c1.inner@[i] == c0.inner@[i]);
            if c1.inner@[i].key == k {
                assert(c0.has_key(k));
            }
        }
    }
    lemma_key_index_of(c1, n);
    assert forall|b: usize| b != k implies (c1.has_key(b) <==> c0.has_key(b)) by {
        if c0.has_key(b) {
            let j = c0.key_index(b);
            assert(c1.inner@[j].key == b);
        }
        if c1.has_key(b) {
            let j = c1.key_index(b);
            assert(j != n);
            assert(c0.inner@[j].key == b);
        }
    }
    assert forall|b: usize| b != k && c0.has_key(b) implies c1.entry_at(b) == c0.entry_at(b) by {
        let j = c0.key_index(b);
        lemma_key_index_of(c1, j);
    }
}

/// Entries under other keys are untouched when the entry at position `i`
/// is removed.
proof fn lemma_active_remove(c0: CurrentUprobes, c1: CurrentUprobes, i: int)
    requires
        c0.wf(),
        0 <= i < c0.inner@.len(),
        c1.inner@ == c0.inner@.remove(i),
    ensures
        c1.wf(),
        !c1.has_key(c0.inner@[i].key),
        forall|b: usize| b != c0.inner@[i].key ==> (c1.has_key(b) <==> c0.has_key(b)),
        forall|b: usize|
            b != c0.inner@[i].key && c0.has_key(b) ==> c1.entry_at(b) == c0.entry_at(b),
{
    let k = c0.inner@[i].key;
    assert(c1.inner@.len() == c0.inner@.len() - 1);
    assert forall|j: int| 0 <= j < c1.inner@.len() implies c1.inner@[j] == c0.inner@[
        if j < i {
            j
        } else {
            j + 1
        }
    ] by {}
    if c1.has_key(k) {
        let j = c1.key_index(k);
        if j < i {
            assert(c0.inner@[j].key != c0.inner@[i].key);
        } else {
            assert(c0.inner@[j + 1].key != c0.inner@[i].key);
        }
    }
    assert forall|b: usize| b != k implies (c1.has_key(b) <==> c0.has_key(b)) by {
        if c0.has_key(b) {
            let j = c0.key_index(b);
            assert(j != i);
            if j < i {
                assert(c1.inner@[j].key == b);
            } else {
                assert(c1.inner@[j - 1].key == b);
            }
        }
        if c1.has_key(b) {
            let j = c1.key_index(b);
            if j < i {
                assert(c0.inner@[j].key == b);
            } else {
                assert(c0.inner@[j + 1].key == b);
            }
        }
    }
    assert forall|b: usize| b != k && c0.has_key(b) implies c1.entry_at(b) == c0.entry_at(b) by {
        let j = c0.key_index(b);
        if j < i {
            lemma_key_index_of(c1, j);
        } else {
            lemma_key_index_of(c1, j - 1);
        }
    }
}

/// `p` with its call-return stack replaced by `stack`.
pub open spec fn with_stack(p: ProbeView, stack: Seq<usize>) -> ProbeView {
    ProbeView {
        addr: p.addr,
        length: p.length,
        slot_addr: p.slot_addr,
        addisp: p.addisp,
        func_ra: stack,
        func_ebreak_addr: p.func_ebreak_addr,
        insn_ebreak_addr: p.insn_ebreak_addr,
        handler: p.handler,
        post_handler: p.post_handler,
        probe_type: p.probe_type,
    }
}

/// What the host must still do after a breakpoint trap was dispatched.
#[allow(inconsistent_fields)]
#[derive(Copy, Clone, Debug, PartialEq, Eq, Structural)]
pub enum TrapOutcome {
    /// A probe-point hit was dispatched; the entry handler token was
    /// already delivered by `lookup_entry_handler` and has run.
    Entry,
    /// The single-stepped instruction completed; the host runs the post
    /// handler token, if one is attached.
    InsnComplete { post_handler: Option<usize> },
    /// The probed function returned; the host runs the post handler token.
    FuncReturn { post_handler: usize },
}

/// A probe descriptor hit by a trap must have been materialized and armed:
/// its length is decoded, an instruction probe's single-step marker sits
/// just past the relocated instruction, and a function probe's return
/// trampoline is distinct from its (unused) single-step marker.
pub open spec fn trap_entry_ready(p: ProbeView) -> bool {
    &&& p.length == 2 || p.length == 4
    &&& p.probe_type == ProbeType::Insn ==> p.insn_ebreak_addr == p.slot_addr + p.length
    &&& p.probe_type == ProbeType::SyncFunc ==> p.insn_ebreak_addr != p.func_ebreak_addr
}

/// The complete effect of dispatching one breakpoint trap on the probe
/// state `s0` and trap context `cx0` of one process image, leaving state
/// `s1`, context `cx1` and result `r`.
pub open spec fn trap_dispatch_rel(
    s0: CurrentProcessUprobesInner,
    s1: CurrentProcessUprobesInner,
    cx0: TrapContext,
    cx1: TrapContext,
    r: Result<TrapOutcome, UprobeError>,
) -> bool {
    &&& s1.uprobes.inner@ == s0.uprobes.inner@
    // -- hit at a registered function probe --
    &&& s0.uprobes.has_addr(cx0.sepc) && s0.uprobes.probe_at(cx0.sepc).probe_type
        == ProbeType::SyncFunc ==> r == Ok::<TrapOutcome, UprobeError>(TrapOutcome::Entry)
        && cx1.sepc == cx0.sepc.wrapping_add(s0.uprobes.probe_at(cx0.sepc).length) && cx1.sp
        == cx0.sp.wrapping_add(s0.uprobes.probe_at(cx0.sepc).addisp)
    &&& s0.uprobes.has_addr(cx0.sepc) && s0.uprobes.probe_at(cx0.sepc).probe_type
        == ProbeType::SyncFunc && s0.uprobes.probe_at(cx0.sepc).post_handler is None ==> cx1.ra
        == cx0.ra && s1.current_uprobes.inner@ == s0.current_uprobes.inner@
    &&& s0.uprobes.has_addr(cx0.sepc) && s0.uprobes.probe_at(cx0.sepc).probe_type
        == ProbeType::SyncFunc && s0.uprobes.probe_at(cx0.sepc).post_handler is Some
        ==> sync_entry_filed(s0, s1, cx0, s0.uprobes.probe_at(cx0.sepc)) && cx1.ra
        == s0.uprobes.probe_at(cx0.sepc).func_ebreak_addr
    // -- hit at a registered instruction probe --
    &&& s0.uprobes.has_addr(cx0.sepc) && s0.uprobes.probe_at(cx0.sepc).probe_type
        == ProbeType::Insn ==> r == Ok::<TrapOutcome, UprobeError>(TrapOutcome::Entry) && cx1.sepc
        == s0.uprobes.probe_at(cx0.sepc).slot_addr && cx1.ra == cx0.ra && cx1.sp == cx0.sp
        && insn_entry_filed(s0, s1, s0.uprobes.probe_at(cx0.sepc))
    // -- single step of an instruction probe completed --
    &&& !s0.uprobes.has_addr(cx0.sepc) && s0.current_uprobes.has_key(cx0.sepc)
        && s0.current_uprobes.entry_at(cx0.sepc).insn_ebreak_addr == cx0.sepc ==> r == Ok::<
        TrapOutcome,
        UprobeError,
    >(TrapOutcome::InsnComplete { post_handler: s0.current_uprobes.entry_at(cx0.sepc).post_handler })
        && cx1.sepc == s0.current_uprobes.entry_at(cx0.sepc).addr + s0.current_uprobes.entry_at(
        cx0.sepc,
    ).length && cx1.ra == cx0.ra && cx1.sp == cx0.sp && continuation_retired(s0, s1, cx0.sepc)
    // -- the probed function returned to its trampoline --
    &&& !s0.uprobes.has_addr(cx0.sepc) && s0.current_uprobes.has_key(cx0.sepc)
        && s0.current_uprobes.entry_at(cx0.sepc).insn_ebreak_addr != cx0.sepc ==> r == Ok::<
        TrapOutcome,
        UprobeError,
    >(
        TrapOutcome::FuncReturn {
            post_handler: s0.current_uprobes.entry_at(cx0.sepc).post_handler.unwrap(),
        },
    ) && cx1.sepc == s0.current_uprobes.entry_at(cx0.sepc).func_ra.last() && cx1.ra == cx0.ra
        && cx1.sp == cx0.sp && func_return_unwound(s0, s1, cx0.sepc)
    // -- a trap this subsystem does not own --
    &&& !s0.uprobes.has_addr(cx0.sepc) && !s0.current_uprobes.has_key(cx0.sepc) ==> r == Err::<
        TrapOutcome,
        UprobeError,
    >(UprobeError::UnknownTrap) && cx1 == cx0 && s1.current_uprobes.inner@
        == s0.current_uprobes.inner@
}

/// The probe state of one process image: the registered probes and the
/// in-flight invocations.
pub struct CurrentProcessUprobesInner {
    /// The probes registered for this image.
    pub uprobes: Uprobes,
    /// The in-flight invocations of this image's probes.
    pub current_uprobes: CurrentUprobes,
}

impl CurrentProcessUprobesInner {
    /// Both registries are well-formed.
    pub open spec fn wf(self) -> bool {
        self.uprobes.wf() && self.current_uprobes.wf()
    }

    /// Empty probe state for a fresh image.
    pub fn new() -> (r: CurrentProcessUprobesInner)
        ensures
            r.wf(),
            r.uprobes.inner@.len() == 0,
            r.current_uprobes.inner@.len() == 0,
    {
        CurrentProcessUprobesInner { uprobes: Uprobes::new(), current_uprobes: CurrentUprobes::new() }
    }

    /// The handler token to run for a trap at `pc`, if `pc` is a
    /// registered probe point.  The host runs the token before calling
    /// `uprobes_trap_handler`; the handler must not change the faulting
    /// program counter.
    pub fn lookup_entry_handler(&self, pc: usize) -> (r: Option<usize>)
        requires
            self.wf(),
        ensures
            self.uprobes.has_addr(pc) ==> r == Some(self.uprobes.probe_at(pc).handler),
            !self.uprobes.has_addr(pc) ==> r is None,
    {
        match self.uprobes.position_of(pc) {
            Some(i) => {
                proof {
                    lemma_addr_index_of(self.uprobes, i as int);
                }
                Some(self.uprobes.inner[i].handler)
            },
            None => None,
        }
    }

    /// Dispatches one breakpoint trap at `cx.sepc`.
    ///
    /// A hit at a registered probe point resumes execution past a function
    /// probe (adjusting the stack pointer and, when a post handler is
    /// attached, diverting the return address to the function trampoline
    /// and recording the original return address on the call-return
    /// stack), or redirects an instruction probe into its out-of-line slot
    /// and files the single-step continuation.  A hit at a trampoline
    /// finishes the innermost in-flight invocation and tells the host
    /// which post handler to run.  A trap matching neither is reported as
    /// `UnknownTrap` and must be passed on to the kernel's generic trap
    /// path.
    pub fn uprobes_trap_handler(&mut self, cx: &mut TrapContext) -> (r: Result<
        TrapOutcome,
        UprobeError,
    >)
        requires
            old(self).wf(),
            old(self).uprobes.has_addr(old(cx).sepc) ==> trap_entry_ready(
                old(self).uprobes.probe_at(old(cx).sepc),
            ),
        ensures
            final(self).wf(),
            trap_dispatch_rel(*old(self), *final(self), *old(cx), *final(cx), r),
    {
        let pc = cx.sepc;
        match self.uprobes.position_of(pc) {
            Some(i) => {
                proof {
                    lemma_addr_index_of(self.uprobes, i as int);
                }
                let probe_type = self.uprobes.inner[i].probe_type;
                match probe_type {
                    ProbeType::SyncFunc => {
                        let addisp = self.uprobes.inner[i].addisp;
                        let length = self.uprobes.inner[i].length;
                        let func_ebreak = self.uprobes.inner[i].func_ebreak_addr;
                        cx.sp = cx.sp.wrapping_add(addisp);
                        cx.sepc = cx.sepc.wrapping_add(length);
                        let has_post = match self.uprobes.inner[i].post_handler {
                            Some(_) => true,
                            None => false,
                        };
                        if has_post {
                            let ghost c0 = self.current_uprobes;
                            match self.current_uprobes.position_of_key(func_ebreak) {
                                Some(j) => {
                                    proof {
                                        lemma_key_index_of(self.current_uprobes, j as int);
                                    }
                                    let ghost cs0 = self.current_uprobes.inner@;
                                    let mut e = self.current_uprobes.inner.remove(j);
                                    e.probe.func_ra.push(cx.ra);
                                    self.current_uprobes.inner.insert(j, e);
                                    proof {
                                        assert(self.current_uprobes.inner@ =~= cs0.update(
                                            j as int,
                                            self.current_uprobes.inner@[j as int],
                                        ));
                                        lemma_active_update(
                                            c0,
                                            self.current_uprobes,
                                            j as int,
                                            func_ebreak,
                                        );
                                    }
                                },
                                None => {
                                    let mut snap = self.uprobes.inner[i].snapshot();
                                    snap.func_ra.push(cx.ra);
                                    self.current_uprobes.inner.push(
                                        ActiveProbe { key: func_ebreak, probe: snap },
                                    );
                                    proof {
                                        lemma_active_push(c0, self.current_uprobes, func_ebreak);
                                    }
                                },
                            }
                            cx.ra = func_ebreak;
                        }
                        Ok(TrapOutcome::Entry)
                    },
                    ProbeType::Insn => {
                        let slot = self.uprobes.inner[i].slot_addr;
                        let insn_ebreak = self.uprobes.inner[i].insn_ebreak_addr;
                        cx.sepc = slot;
                        let ghost c0 = self.current_uprobes;
                        match self.current_uprobes.position_of_key(insn_ebreak) {
                            Some(_) => {
                                proof {
                                    assert(self.current_uprobes.inner@ == c0.inner@);
                                }
                            },
                            None => {
                                let snap = self.uprobes.inner[i].snapshot();
                                self.current_uprobes.inner.push(
                                    ActiveProbe { key: insn_ebreak, probe: snap },
                                );
                                proof {
                                    lemma_active_push(c0, self.current_uprobes, insn_ebreak);
                                }
                            },
                        }
                        Ok(TrapOutcome::Entry)
                    },
                    ProbeType::AsyncFunc => Err(UprobeError::Unimplemented),
                }
            },
            None => {
                match self.current_uprobes.position_of_key(pc) {
                    Some(j) => {
                        proof {
                            lemma_key_index_of(self.current_uprobes, j as int);
                        }
                        let is_insn_step = self.current_uprobes.inner[j].probe.insn_ebreak_addr
                            == pc;
                        if is_insn_step {
                            let ghost c0 = self.current_uprobes;
                            let e = self.current_uprobes.inner.remove(j);
                            let resume = e.probe.addr + e.probe.length;
                            cx.sepc = resume;
                            proof {
                                lemma_active_remove(c0, self.current_uprobes, j as int);
                            }
                            Ok(TrapOutcome::InsnComplete { post_handler: e.probe.post_handler })
                        } else {
                            let ghost c0 = self.current_uprobes;
                            let ghost cs0 = self.current_uprobes.inner@;
                            let mut e = self.current_uprobes.inner.remove(j);
                            let ra_popped = e.probe.func_ra.pop();
                            match ra_popped {
                                Some(ra) => {
                                    cx.sepc = ra;
                                    let post = match e.probe.post_handler {
                                        Some(ph) => ph,
                                        None => 0,
                                    };
                                    if e.probe.func_ra.len() > 0 {
                                        self.current_uprobes.inner.insert(j, e);
                                        proof {
                                            assert(self.current_uprobes.inner@ =~= cs0.update(
                                                j as int,
                                                self.current_uprobes.inner@[j as int],
                                            ));
                                            lemma_active_update(
                                                c0,
                                                self.current_uprobes,
                                                j as int,
                                                pc,
                                            );
                                        }
                                    } else {
                                        proof {
                                            lemma_active_remove(c0, self.current_uprobes, j as int);
                                        }
                                    }
                                    Ok(TrapOutcome::FuncReturn { post_handler: post })
                                },
                                None => Err(UprobeError::UnknownTrap),
                            }
                        }
                    },
                    None => Err(UprobeError::UnknownTrap),
                }
            },
        }
    }
}

/// After a function-probe hit with a post handler: the entry under the
/// probe's return trampoline gained the interrupted caller's return
/// address on top of its call-return stack, and every other in-flight
/// entry is untouched.
pub open spec fn sync_entry_filed(
    s0: CurrentProcessUprobesInner,
    s1: CurrentProcessUprobesInner,
    cx0: TrapContext,
    p: ProbeView,
) -> bool {
    &&& s1.current_uprobes.has_key(p.func_ebreak_addr)
    &&& s0.current_uprobes.has_key(p.func_ebreak_addr) ==> s1.current_uprobes.entry_at(
        p.func_ebreak_addr,
    ) == with_stack(
        s0.current_uprobes.entry_at(p.func_ebreak_addr),
        s0.current_uprobes.entry_at(p.func_ebreak_addr).func_ra.push(cx0.ra),
    )
    &&& !s0.current_uprobes.has_key(p.func_ebreak_addr) ==> s1.current_uprobes.entry_at(
        p.func_ebreak_addr,
    ) == with_stack(p, Seq::empty().push(cx0.ra))
    &&& forall|b: usize|
        b != p.func_ebreak_addr ==> (s1.current_uprobes.has_key(b)
            <==> s0.current_uprobes.has_key(b))
    &&& forall|b: usize|
        b != p.func_ebreak_addr && s0.current_uprobes.has_key(b)
            ==> s1.current_uprobes.entry_at(b) == s0.current_uprobes.entry_at(b)
}

/// After an instruction-probe hit: an entry under the probe's single-step
/// marker exists (filed fresh if it did not), and every other in-flight
/// entry is untouched.
pub open spec fn insn_entry_filed(
    s0: CurrentProcessUprobesInner,
    s1: CurrentProcessUprobesInner,
    p: ProbeView,
) -> bool {
    &&& s1.current_uprobes.has_key(p.insn_ebreak_addr)
    &&& s0.current_uprobes.has_key(p.insn_ebreak_addr) ==> s1.current_uprobes.inner@
        == s0.current_uprobes.inner@
    &&& !s0.current_uprobes.has_key(p.insn_ebreak_addr) ==> s1.current_uprobes.entry_at(
        p.insn_ebreak_addr,
    ) == with_stack(p, Seq::empty())
    &&& forall|b: usize|
        b != p.insn_ebreak_addr ==> (s1.current_uprobes.has_key(b)
            <==> s0.current_uprobes.has_key(b))
    &&& forall|b: usize|
        b != p.insn_ebreak_addr && s0.current_uprobes.has_key(b)
            ==> s1.current_uprobes.entry_at(b) == s0.current_uprobes.entry_at(b)
}

/// After a continuation at `key` was retired: its entry is gone and every
/// other in-flight entry is untouched.
pub open spec fn continuation_retired(
    s0: CurrentProcessUprobesInner,
    s1: CurrentProcessUprobesInner,
    key: usize,
) -> bool {
    &&& !s1.current_uprobes.has_key(key)
    &&& s1.current_uprobes.inner@.len() == s0.current_uprobes.inner@.len() - 1
    &&& forall|b: usize|
        b != key ==> (s1.current_uprobes.has_key(b) <==> s0.current_uprobes.has_key(b))
    &&& forall|b: usize|
        b != key && s0.current_uprobes.has_key(b) ==> s1.current_uprobes.entry_at(b)
            == s0.current_uprobes.entry_at(b)
}

/// After a function-probe return at trampoline `key`: the innermost
/// return address was popped off the entry's call-return stack, the entry
/// is retired once its stack is empty, and every other in-flight entry is
/// untouched.
pub open spec fn func_return_unwound(
    s0: CurrentProcessUprobesInner,
    s1: CurrentProcessUprobesInner,
    key: usize,
) -> bool {
    &&& s0.current_uprobes.entry_at(key).func_ra.len() > 1 ==> s1.current_uprobes.has_key(key)
        && s1.current_uprobes.entry_at(key) == with_stack(
        s0.current_uprobes.entry_at(key),
        s0.current_uprobes.entry_at(key).func_ra.drop_last(),
    )
    &&& s0.current_uprobes.entry_at(key).func_ra.len() == 1 ==> continuation_retired(s0, s1, key)
    &&& forall|b: usize|
        b != key ==> (s1.current_uprobes.has_key(b) <==> s0.current_uprobes.has_key(b))
    &&& forall|b: usize|
        b != key && s0.current_uprobes.has_key(b) ==> s1.current_uprobes.entry_at(b)
            == s0.current_uprobes.entry_at(b)
}

/// The probe state of one process image together with the image's path.
pub struct ImageProbes {
    /// The image's path, the identity under which its probes are filed.
    pub path: String,
    /// The image's registered probes and in-flight invocations.
    pub probes: CurrentProcessUprobesInner,
}

/// The process-wide probe table: the probe state of every image for which
/// a probe was ever registered, keyed by image path.  The host serializes
/// access: every trap-context caller must hold the table's lock.
pub struct CurrentProcessUprobes {
    /// One entry per image, in first-registration order.
    pub inner: Vec<ImageProbes>,
}

impl CurrentProcessUprobes {
    /// Whether an image with path `p` has a table entry.
    pub open spec fn has_path(self, p: Seq<char>) -> bool {
        exists|i: int| 0 <= i < self.inner@.len() && self.inner@[i].path@ == p
    }

    /// The position of the entry for path `p`.
    pub open spec fn path_index(self, p: Seq<char>) -> int {
        choose|i: int| 0 <= i < self.inner@.len() && self.inner@[i].path@ == p
    }

    /// The probe state of the image with path `p`.
    pub open spec fn probes_at(self, p: Seq<char>) -> CurrentProcessUprobesInner {
        self.inner@[self.path_index(p)].probes
    }

    /// The table's invariant: paths are distinct and every image's probe
    /// state is well-formed.
    pub open spec fn wf(self) -> bool {
        &&& forall|i: int, j: int|
            0 <= i < j < self.inner@.len() ==> self.inner@[i].path@ != self.inner@[j].path@
        &&& forall|i: int|
            0 <= i < self.inner@.len() ==> (#[trigger] self.inner@[i]).probes.wf()
    }

    /// An empty table.
    pub fn new() -> (r: CurrentProcessUprobes)
        ensures
            r.wf(),
            r.inner@.len() == 0,
    {
        CurrentProcessUprobes { inner: Vec::new() }
    }

    /// The position of the entry for `path`, if one exists.
    fn position_of_path(&self, path: &String) -> (r: Option<usize>)
        ensures
            r matches Some(i) ==> i < self.inner@.len() && self.inner@[i as int].path@ == path@,
            r is None ==> !self.has_path(path@),
    {
        let mut i: usize = 0;
        while i < self.inner.len()
            invariant
                0 <= i <= self.inner@.len(),
                forall|j: int| 0 <= j < i ==> self.inner@[j].path@ != path@,
            decreases self.inner@.len() - i,
        {
            if self.inner[i].path == *path {
                return Some(i);
            }
            i = i + 1;
        }
        None
    }
}

/// The effect of registering a probe at `addr` on an image's registry:
/// the descriptor is created, or replaced if one was already registered
/// there, and every other address's descriptor is untouched.
pub open spec fn registered_into(u0: Uprobes, u1: Uprobes, addr: usize) -> bool {
    &&& u1.has_addr(addr)
    &&& u0.has_addr(addr) ==> u1.inner@.len() == u0.inner@.len()
    &&& !u0.has_addr(addr) ==> u1.inner@.len() == u0.inner@.len() + 1
    &&& forall|b: usize| b != addr ==> (u1.has_addr(b) <==> u0.has_addr(b))
    &&& forall|b: usize| b != addr && u0.has_addr(b) ==> u1.probe_at(b) == u0.probe_at(b)
}

impl CurrentProcessUprobes {
    /// Registers a probe for the image at `path`: creates the image's
    /// probe state on first registration, creates or updates the
    /// descriptor at `addr`, and, when `path` names the image that is
    /// currently executing, materializes and arms it at once.  Probing an
    /// asynchronous function is refused with -1; otherwise returns 1, with
    /// a materialization failure leaving the probe registered but
    /// unarmed.
    pub fn register_uprobes(
        &mut self,
        path: String,
        addr: usize,
        handler: usize,
        post_handler: Option<usize>,
        probe_type: ProbeType,
        current_path: &String,
        mem: &mut UserMemory,
        alloc: &mut PageAllocator,
        oracle: &StackAdjustOracle,
    ) -> (r: isize)
        requires
            old(self).wf(),
            addr + 4 <= usize::MAX,
            // a probe for the running image is materialized at once,
            // which needs room in the span and fresh regions above the
            // probe point
            path@ == current_path@ ==> old(mem).wf() && old(mem).covers(addr as int, 4) && old(
                alloc,
            ).next + 8 <= usize::MAX && old(mem).covers(old(alloc).next as int, 8) && addr + 4
                <= old(alloc).next,
        ensures
            final(self).wf(),
            probe_type == ProbeType::AsyncFunc ==> r == -1 && final(self).inner@ == old(
                self,
            ).inner@ && *final(mem) == *old(mem) && *final(alloc) == *old(alloc),
            probe_type != ProbeType::AsyncFunc ==> r == 1 && final(self).has_path(path@),
            forall|q: Seq<char>| q != path@ ==> (final(self).has_path(q) <==> old(self).has_path(q)),
            forall|q: Seq<char>|
                q != path@ && old(self).has_path(q) ==> final(self).probes_at(q) == old(
                    self,
                ).probes_at(q),
            probe_type != ProbeType::AsyncFunc && old(self).has_path(path@) ==> registered_into(
                old(self).probes_at(path@).uprobes,
                final(self).probes_at(path@).uprobes,
                addr,
            ) && final(self).probes_at(path@).current_uprobes.inner@ == old(self).probes_at(
                path@,
            ).current_uprobes.inner@,
            probe_type != ProbeType::AsyncFunc && !old(self).has_path(path@) ==> final(self).probes_at(path@).uprobes.inner@.len() == 1 && final(self).probes_at(
                path@,
            ).uprobes.has_addr(addr) && final(self).probes_at(
                path@,
            ).current_uprobes.inner@.len() == 0,
            // a probe for another image stays unmaterialized and nothing
            // else is touched
            probe_type != ProbeType::AsyncFunc && path@ != current_path@ ==> final(self).probes_at(
                path@,
            ).uprobes.probe_at(addr) == fresh_probe(addr, handler, post_handler, probe_type)
                && *final(mem) == *old(mem) && *final(alloc) == *old(alloc),
            // a probe for the running image is materialized and armed
            // exactly when materialization succeeds
            probe_type != ProbeType::AsyncFunc && path@ == current_path@ ==> materialized_from(
                fresh_probe(addr, handler, post_handler, probe_type),
                final(self).probes_at(path@).uprobes.probe_at(addr),
                *old(mem),
                old(alloc).next,
                spec_materialize_ok(
                    fresh_probe(addr, handler, post_handler, probe_type),
                    *old(mem),
                    oracle.spec_get_sp(addr),
                ),
                oracle.spec_get_sp(addr),
            ) && final(alloc).next == old(alloc).next + 8 && final(mem).wf() && final(mem).base
                == old(mem).base && final(mem).bytes@.len() == old(mem).bytes@.len(),
            probe_type != ProbeType::AsyncFunc && path@ == current_path@
                && spec_materialize_ok(
                fresh_probe(addr, handler, post_handler, probe_type),
                *old(mem),
                oracle.spec_get_sp(addr),
            ) ==> armed_at(*final(mem), addr, final(self).probes_at(path@).uprobes.probe_at(addr).length),
            probe_type != ProbeType::AsyncFunc && path@ == current_path@
                && !spec_materialize_ok(
                fresh_probe(addr, handler, post_handler, probe_type),
                *old(mem),
                oracle.spec_get_sp(addr),
            ) ==> bytes_unchanged_at(*final(mem), *old(mem), addr, 4),
    {
        if probe_type == ProbeType::AsyncFunc {
            return -1;
        }
        let ghost t0 = *self;
        match self.position_of_path(&path) {
            Some(j) => {
                proof {
                    lemma_path_index_of(*self, j as int);
                }
                let ghost ts0 = self.inner@;
                let mut entry = self.inner.remove(j);
                let _status = entry.probes.uprobes.register_uprobe(
                    addr,
                    handler,
                    post_handler,
                    probe_type,
                );
                self.inner.insert(j, entry);
                proof {
                    assert(self.inner@ =~= ts0.update(j as int, self.inner@[j as int]));
                    lemma_image_update(t0, *self, j as int, path@);
                }
            },
            None => {
                let mut fresh_state = CurrentProcessUprobesInner::new();
                let _status = fresh_state.uprobes.register_uprobe(
                    addr,
                    handler,
                    post_handler,
                    probe_type,
                );
                self.inner.push(ImageProbes { path: path.clone(), probes: fresh_state });
                proof {
                    lemma_image_push(t0, *self, path@);
                }
            },
        }
        let ghost t1 = *self;
        if path == *current_path {
            let sp = oracle.get_sp(addr);
            match self.position_of_path(&path) {
                Some(j) => {
                    proof {
                        lemma_path_index_of(*self, j as int);
                    }
                    let ghost ts1 = self.inner@;
                    let mut entry = self.inner.remove(j);
                    let _outcome = entry.probes.uprobes.add_uprobepoint_at(addr, mem, alloc, sp);
                    self.inner.insert(j, entry);
                    proof {
                        assert(self.inner@ =~= ts1.update(j as int, self.inner@[j as int]));
                        lemma_image_update(t1, *self, j as int, path@);
                    }
                },
                None => {},
            }
        }
        1
    }

    /// Unregisters the probe at `addr` for the image at `path`: disarms
    /// the breakpoint when the probe is armed in the running image, and
    /// removes the descriptor.  Returns 1 on success and -1 when no such
    /// probe is registered.
    pub fn unregister_uprobes(
        &mut self,
        path: &String,
        addr: usize,
        current_path: &String,
        mem: &mut UserMemory,
    ) -> (r: isize)
        requires
            old(self).wf(),
            // restoring the original bytes of an armed probe needs the
            // span to cover the probe point and its slot
            path@ == current_path@ && old(self).has_path(path@) && old(self).probes_at(
                path@,
            ).uprobes.has_addr(addr) && (old(self).probes_at(path@).uprobes.probe_at(addr).length
                == 2 || old(self).probes_at(path@).uprobes.probe_at(addr).length == 4) ==> old(
                mem,
            ).covers(addr as int, old(self).probes_at(path@).uprobes.probe_at(addr).length as int)
                && old(mem).covers(
                old(self).probes_at(path@).uprobes.probe_at(addr).slot_addr as int,
                old(self).probes_at(path@).uprobes.probe_at(addr).length as int,
            ),
        ensures
            final(self).wf(),
            !old(self).has_path(path@) ==> r == -1 && final(self).inner@ == old(self).inner@
                && *final(mem) == *old(mem),
            old(self).has_path(path@) && !old(self).probes_at(path@).uprobes.has_addr(addr) ==> r
                == -1 && *final(mem) == *old(mem),
            old(self).has_path(path@) && old(self).probes_at(path@).uprobes.has_addr(addr) ==> r
                == 1 && !final(self).probes_at(path@).uprobes.has_addr(addr) && final(self).probes_at(path@).uprobes.inner@.len() == old(self).probes_at(
                path@,
            ).uprobes.inner@.len() - 1 && final(self).probes_at(path@).current_uprobes.inner@
                == old(self).probes_at(path@).current_uprobes.inner@,
            old(self).has_path(path@) ==> forall|b: usize|
                b != addr ==> (final(self).probes_at(path@).uprobes.has_addr(b) <==> old(
                    self,
                ).probes_at(path@).uprobes.has_addr(b)),
            old(self).has_path(path@) ==> forall|b: usize|
                b != addr && old(self).probes_at(path@).uprobes.has_addr(b) ==> final(self).probes_at(path@).uprobes.probe_at(b) == old(self).probes_at(
                    path@,
                ).uprobes.probe_at(b),
            // the original bytes come back when the probe was armed in
            // the running image ...
            old(self).has_path(path@) && old(self).probes_at(path@).uprobes.has_addr(addr)
                && path@ == current_path@ && (old(self).probes_at(path@).uprobes.probe_at(
                addr,
            ).length == 2 || old(self).probes_at(path@).uprobes.probe_at(addr).length == 4)
                ==> disarm_rel(
                old(self).probes_at(path@).uprobes.probe_at(addr),
                *old(mem),
                *final(mem),
            ),
            // ... and memory is untouched otherwise
            !(old(self).has_path(path@) && old(self).probes_at(path@).uprobes.has_addr(addr)
                && path@ == current_path@ && (old(self).probes_at(path@).uprobes.probe_at(
                addr,
            ).length == 2 || old(self).probes_at(path@).uprobes.probe_at(addr).length == 4))
                ==> *final(mem) == *old(mem),
            forall|q: Seq<char>| q != path@ ==> (final(self).has_path(q) <==> old(self).has_path(q)),
            forall|q: Seq<char>|
                q != path@ && old(self).has_path(q) ==> final(self).probes_at(q) == old(
                    self,
                ).probes_at(q),
    {
        match self.position_of_path(path) {
            Some(j) => {
                proof {
                    lemma_path_index_of(*self, j as int);
                }
                let ghost t0 = *self;
                let ghost ts0 = self.inner@;
                let mut entry = self.inner.remove(j);
                let removed = entry.probes.uprobes.remove_uprobe(addr);
                let result: isize = match removed {
                    Some(probe) => {
                        if *path == *current_path && (probe.length == 2 || probe.length == 4) {
                            probe.disarm(mem);
                        }
                        1
                    },
                    None => -1,
                };
                self.inner.insert(j, entry);
                proof {
                    assert(self.inner@ =~= ts0.update(j as int, self.inner@[j as int]));
                    lemma_image_update(t0, *self, j as int, path@);
                }
                result
            },
            None => -1,
        }
    }

    /// Re-materializes every probe registered for the image that has just
    /// begun executing: each execution gets a fresh address space, so all
    /// its descriptors are rebuilt into fresh regions and re-armed.  An
    /// image with no table entry is left alone.
    pub fn uprobes_init(
        &mut self,
        current_path: &String,
        mem: &mut UserMemory,
        alloc: &mut PageAllocator,
        oracle: &StackAdjustOracle,
    )
        requires
            old(self).wf(),
            old(self).has_path(current_path@) ==> rematerialize_pre(
                old(self).probes_at(current_path@).uprobes,
                *old(mem),
                old(alloc).next,
            ),
        ensures
            final(self).wf(),
            !old(self).has_path(current_path@) ==> final(self).inner@ == old(self).inner@
                && *final(mem) == *old(mem) && *final(alloc) == *old(alloc),
            old(self).has_path(current_path@) ==> final(self).has_path(current_path@)
                && all_rematerialized(
                old(self).probes_at(current_path@).uprobes,
                final(self).probes_at(current_path@).uprobes,
                *old(mem),
                *final(mem),
                old(alloc).next,
                *oracle,
            ) && final(alloc).next == old(alloc).next + 8 * old(self).probes_at(
                current_path@,
            ).uprobes.inner@.len() && final(self).probes_at(current_path@).current_uprobes.inner@
                == old(self).probes_at(current_path@).current_uprobes.inner@,
            forall|q: Seq<char>|
                q != current_path@ ==> (final(self).has_path(q) <==> old(self).has_path(q)),
            forall|q: Seq<char>|
                q != current_path@ && old(self).has_path(q) ==> final(self).probes_at(q) == old(
                    self,
                ).probes_at(q),
    {
        match self.position_of_path(current_path) {
            Some(j) => {
                proof {
                    lemma_path_index_of(*self, j as int);
                }
                let ghost t0 = *self;
                let ghost ts0 = self.inner@;
                let mut entry = self.inner.remove(j);
                entry.probes.uprobes.add_uprobepoint(mem, alloc, oracle);
                self.inner.insert(j, entry);
                proof {
                    assert(self.inner@ =~= ts0.update(j as int, self.inner@[j as int]));
                    lemma_image_update(t0, *self, j as int, current_path@);
                }
            },
            None => {},
        }
    }

    /// The handler token to run for a trap at `pc` in the currently
    /// executing image, if `pc` is one of its registered probe points.
    pub fn lookup_entry_handler(&self, current_path: &String, pc: usize) -> (r: Option<usize>)
        requires
            self.wf(),
        ensures
            self.has_path(current_path@) && self.probes_at(current_path@).uprobes.has_addr(pc)
                ==> r == Some(self.probes_at(current_path@).uprobes.probe_at(pc).handler),
            !(self.has_path(current_path@) && self.probes_at(current_path@).uprobes.has_addr(pc))
                ==> r is None,
    {
        match self.position_of_path(current_path) {
            Some(j) => {
                proof {
                    lemma_path_index_of(*self, j as int);
                }
                self.inner[j].probes.lookup_entry_handler(pc)
            },
            None => None,
        }
    }

    /// Dispatches one breakpoint trap in the currently executing image,
    /// as `CurrentProcessUprobesInner::uprobes_trap_handler` does; a trap
    /// in an image without a table entry is reported as `UnknownTrap`.
    pub fn uprobes_trap_handler(&mut self, current_path: &String, cx: &mut TrapContext) -> (r:
        Result<TrapOutcome, UprobeError>)
        requires
            old(self).wf(),
            old(self).has_path(current_path@) && old(self).probes_at(
                current_path@,
            ).uprobes.has_addr(old(cx).sepc) ==> trap_entry_ready(
                old(self).probes_at(current_path@).uprobes.probe_at(old(cx).sepc),
            ),
        ensures
            final(self).wf(),
            !old(self).has_path(current_path@) ==> r == Err::<TrapOutcome, UprobeError>(
                UprobeError::UnknownTrap,
            ) && *final(cx) == *old(cx) && final(self).inner@ == old(self).inner@,
            old(self).has_path(current_path@) ==> final(self).has_path(current_path@)
                && trap_dispatch_rel(
                old(self).probes_at(current_path@),
                final(self).probes_at(current_path@),
                *old(cx),
                *final(cx),
                r,
            ),
            forall|q: Seq<char>|
                q != current_path@ ==> (final(self).has_path(q) <==> old(self).has_path(q)),
            forall|q: Seq<char>|
                q != current_path@ && old(self).has_path(q) ==> final(self).probes_at(q) == old(
                    self,
                ).probes_at(q),
    {
        match self.position_of_path(current_path) {
            Some(j) => {
                proof {
                    lemma_path_index_of(*self, j as int);
                }
                let ghost t0 = *self;
                let ghost ts0 = self.inner@;
                let mut entry = self.inner.remove(j);
                let r = entry.probes.uprobes_trap_handler(cx);
                self.inner.insert(j, entry);
                proof {
                    assert(self.inner@ =~= ts0.update(j as int, self.inner@[j as int]));
                    lemma_image_update(t0, *self, j as int, current_path@);
                }
                r
            },
            None => Err(UprobeError::UnknownTrap),
        }
    }
}

/// In a table with distinct paths, the entry found for the path at
/// position `i` is the one at position `i`.
proof fn lemma_path_index_of(t: CurrentProcessUprobes, i: int)
    requires
        forall|k: int, l: int|
            0 <= k < l < t.inner@.len() ==> t.inner@[k].path@ != t.inner@[l].path@,
        0 <= i < t.inner@.len(),
    ensures
        t.has_path(t.inner@[i].path@),
        t.path_index(t.inner@[i].path@) == i,
        t.probes_at(t.inner@[i].path@) == t.inner@[i].probes,
{
    let p = t.inner@[i].path@;
    assert(t.has_path(p));
    let j = t.path_index(p);
    assert(0 <= j < t.inner@.len() && t.inner@[j].path@ == p);
    if j < i {
        assert(t.inner@[j].path@ != t.inner@[i].path@);
    } else if i < j {
        assert(t.inner@[i].path@ != t.inner@[j].path@);
    }
}

/// Entries of other images are untouched when the entry at position `i`
/// is replaced by one for the same path.
proof fn lemma_image_update(t0: CurrentProcessUprobes, t1: CurrentProcessUprobes, i: int, p: Seq<char>)
    requires
        t0.wf(),
        0 <= i < t0.inner@.len(),
        t0.inner@[i].path@ == p,
        t1.inner@.len() == t0.inner@.len(),
        t1.inner@[i].path@ == p,
        t1.inner@[i].probes.wf(),
        forall|j: int| 0 <= j < t0.inner@.len() && j != i ==> t1.inner@[j] == t0.inner@[j],
    ensures
        t1.wf(),
        t1.has_path(p),
        t1.probes_at(p) == t1.inner@[i].probes,
        forall|q: Seq<char>| q != p ==> (t1.has_path(q) <==> t0.has_path(q)),
        forall|q: Seq<char>| q != p && t0.has_path(q) ==> t1.probes_at(q) == t0.probes_at(q),
{
    lemma_path_index_of(t1, i);
    assert forall|q: Seq<char>| q != p implies (t1.has_path(q) <==> t0.has_path(q)) by {
        if t0.has_path(q) {
            let j = t0.path_index(q);
            assert(t1.inner@[j].path@ == q);
        }
        if t1.has_path(q) {
            let j = t1.path_index(q);
            assert(t0.inner@[j].path@ == q);
        }
    }
    assert forall|q: Seq<char>| q != p && t0.has_path(q) implies t1.probes_at(q) == t0.probes_at(
        q,
    ) by {
        let j = t0.path_index(q);
        lemma_path_index_of(t1, j);
    }
}

/// Entries of other images are untouched when an entry for a fresh path
/// is appended.
proof fn lemma_image_push(t0: CurrentProcessUprobes, t1: CurrentProcessUprobes, p: Seq<char>)
    requires
        t0.wf(),
        !t0.has_path(p),
        t1.inner@.len() == t0.inner@.len() + 1,
        t1.inner@[t0.inner@.len() as int].path@ == p,
        t1.inner@[t0.inner@.len() as int].probes.wf(),
        forall|j: int| 0 <= j < t0.inner@.len() ==> t1.inner@[j] == t0.inner@[j],
    ensures
        t1.wf(),
        t1.has_path(p),
        t1.probes_at(p) == t1.inner@[t0.inner@.len() as int].probes,
        forall|q: Seq<char>| q != p ==> (t1.has_path(q) <==> t0.has_path(q)),
        forall|q: Seq<char>| q != p && t0.has_path(q) ==> t1.probes_at(q) == t0.probes_at(q),
{
    let n = t0.inner@.len() as int;
    assert forall|i: int, j: int|
        0 <= i < j < t1.inner@.len() implies t1.inner@[i].path@ != t1.inner@[j].path@ by {
        if j == n {
            assert(t1.inner@[i] == t0.inner@[i]);
            if t1.inner@[i].path@ == p {
                assert(t0.has_path(p));
            }
        }
    }
    lemma_path_index_of(t1, n);
    assert forall|q: Seq<char>| q != p implies (t1.has_path(q) <==> t0.has_path(q)) by {
        if t0.has_path(q) {
            let j = t0.path_index(q);
            assert(t1.inner@[j].path@ == q);
        }
        if t1.has_path(q) {
            let j = t1.path_index(q);
            assert(j != n);
            assert(t0.inner@[j].path@ == q);
        }
    }
    assert forall|q: Seq<char>| q != p && t0.has_path(q) implies t1.probes_at(q) == t0.probes_at(
        q,
    ) by {
        let j = t0.path_index(q);
        lemma_path_index_of(t1, j);
    }
}

/// Registers a probe in the process-wide table, as
/// `CurrentProcessUprobes::register_uprobes` does.  The host passes the
/// table, the running image's path, and its memory services; it owns the
/// callbacks behind the handler tokens.
pub fn uprobe_register(
    table: &mut CurrentProcessUprobes,
    path: String,
    addr: usize,
    handler: usize,
    post_handler: Option<usize>,
    probe_type: ProbeType,
    current_path: &String,
    mem: &mut UserMemory,
    alloc: &mut PageAllocator,
    oracle: &StackAdjustOracle,
) -> (r: isize)
    requires
        old(table).wf(),
        addr + 4 <= usize::MAX,
        path@ == current_path@ ==> old(mem).wf() && old(mem).covers(addr as int, 4) && old(
            alloc,
        ).next + 8 <= usize::MAX && old(mem).covers(old(alloc).next as int, 8) && addr + 4 <= old(
            alloc,
        ).next,
    ensures
        final(table).wf(),
        probe_type == ProbeType::AsyncFunc ==> r == -1 && final(table).inner@ == old(
            table,
        ).inner@,
        probe_type != ProbeType::AsyncFunc ==> r == 1 && final(table).has_path(path@),
        probe_type != ProbeType::AsyncFunc && old(table).has_path(path@) ==> registered_into(
            old(table).probes_at(path@).uprobes,
            final(table).probes_at(path@).uprobes,
            addr,
        ),
        probe_type != ProbeType::AsyncFunc && path@ != current_path@ ==> final(table).probes_at(
            path@,
        ).uprobes.probe_at(addr) == fresh_probe(addr, handler, post_handler, probe_type),
        probe_type != ProbeType::AsyncFunc && path@ == current_path@ ==> materialized_from(
            fresh_probe(addr, handler, post_handler, probe_type),
            final(table).probes_at(path@).uprobes.probe_at(addr),
            *old(mem),
            old(alloc).next,
            spec_materialize_ok(
                fresh_probe(addr, handler, post_handler, probe_type),
                *old(mem),
                oracle.spec_get_sp(addr),
            ),
            oracle.spec_get_sp(addr),
        ),
        probe_type != ProbeType::AsyncFunc && path@ == current_path@ && spec_materialize_ok(
            fresh_probe(addr, handler, post_handler, probe_type),
            *old(mem),
            oracle.spec_get_sp(addr),
        ) ==> armed_at(
            *final(mem),
            addr,
            final(table).probes_at(path@).uprobes.probe_at(addr).length,
        ),
        forall|q: Seq<char>| q != path@ ==> (final(table).has_path(q) <==> old(table).has_path(q)),
        forall|q: Seq<char>|
            q != path@ && old(table).has_path(q) ==> final(table).probes_at(q) == old(
                table,
            ).probes_at(q),
{
    table.register_uprobes(
        path,
        addr,
        handler,
        post_handler,
        probe_type,
        current_path,
        mem,
        alloc,
        oracle,
    )
}

/// Unregisters a probe from the process-wide table, as
/// `CurrentProcessUprobes::unregister_uprobes` does: the breakpoint is
/// disarmed when the probe is armed in the running image, and the
/// descriptor is removed.
pub fn uprobe_unregister(
    table: &mut CurrentProcessUprobes,
    path: &String,
    addr: usize,
    current_path: &String,
    mem: &mut UserMemory,
) -> (r: isize)
    requires
        old(table).wf(),
        path@ == current_path@ && old(table).has_path(path@) && old(table).probes_at(
            path@,
        ).uprobes.has_addr(addr) && (old(table).probes_at(path@).uprobes.probe_at(addr).length == 2
            || old(table).probes_at(path@).uprobes.probe_at(addr).length == 4) ==> old(mem).covers(
            addr as int,
            old(table).probes_at(path@).uprobes.probe_at(addr).length as int,
        ) && old(mem).covers(
            old(table).probes_at(path@).uprobes.probe_at(addr).slot_addr as int,
            old(table).probes_at(path@).uprobes.probe_at(addr).length as int,
        ),
    ensures
        final(table).wf(),
        r == 1 <==> old(table).has_path(path@) && old(table).probes_at(path@).uprobes.has_addr(
            addr,
        ),
        r == 1 || r == -1,
        old(table).has_path(path@) && old(table).probes_at(path@).uprobes.has_addr(addr)
            ==> !final(table).probes_at(path@).uprobes.has_addr(addr),
        old(table).has_path(path@) && old(table).probes_at(path@).uprobes.has_addr(addr) && path@
            == current_path@ && (old(table).probes_at(path@).uprobes.probe_at(addr).length == 2
            || old(table).probes_at(path@).uprobes.probe_at(addr).length == 4) ==> disarm_rel(
            old(table).probes_at(path@).uprobes.probe_at(addr),
            *old(mem),
            *final(mem),
        ),
        forall|q: Seq<char>| q != path@ ==> (final(table).has_path(q) <==> old(table).has_path(q)),
        forall|q: Seq<char>|
            q != path@ && old(table).has_path(q) ==> final(table).probes_at(q) == old(
                table,
            ).probes_at(q),
{
    table.unregister_uprobes(path, addr, current_path, mem)
}

/// Dispatches one breakpoint trap against the process-wide table, as
/// `CurrentProcessUprobes::uprobes_trap_handler` does.  The host calls
/// this from its breakpoint-exception dispatcher, after running the
/// handler token that `lookup_entry_handler` returned for the faulting
/// program counter, and then runs the post-handler token of the outcome.
/// An `UnknownTrap` error must be passed on to the kernel's generic trap
/// path.
pub fn uprobes_trap_handler(
    table: &mut CurrentProcessUprobes,
    current_path: &String,
    cx: &mut TrapContext,
) -> (r: Result<TrapOutcome, UprobeError>)
    requires
        old(table).wf(),
        old(table).has_path(current_path@) && old(table).probes_at(current_path@).uprobes.has_addr(
            old(cx).sepc,
        ) ==> trap_entry_ready(
            old(table).probes_at(current_path@).uprobes.probe_at(old(cx).sepc),
        ),
    ensures
        final(table).wf(),
        !old(table).has_path(current_path@) ==> r == Err::<TrapOutcome, UprobeError>(
            UprobeError::UnknownTrap,
        ) && *final(cx) == *old(cx) && final(table).inner@ == old(table).inner@,
        old(table).has_path(current_path@) ==> final(table).has_path(current_path@)
            && trap_dispatch_rel(
            old(table).probes_at(current_path@),
            final(table).probes_at(current_path@),
            *old(cx),
            *final(cx),
            r,
        ),
        forall|q: Seq<char>|
            q != current_path@ ==> (final(table).has_path(q) <==> old(table).has_path(q)),
        forall|q: Seq<char>|
            q != current_path@ && old(table).has_path(q) ==> final(table).probes_at(q) == old(
                table,
            ).probes_at(q),
{
    table.uprobes_trap_handler(current_path, cx)
}

/// Re-arms every probe registered for the image that has just begun
/// executing, as `CurrentProcessUprobes::uprobes_init` does.  The host
/// calls this at process-image start.
pub fn uprobes_init(
    table: &mut CurrentProcessUprobes,
    current_path: &String,
    mem: &mut UserMemory,
    alloc: &mut PageAllocator,
    oracle: &StackAdjustOracle,
)
    requires
        old(table).wf(),
        old(table).has_path(current_path@) ==> rematerialize_pre(
            old(table).probes_at(current_path@).uprobes,
            *old(mem),
            old(alloc).next,
        ),
    ensures
        final(table).wf(),
        !old(table).has_path(current_path@) ==> final(table).inner@ == old(table).inner@
            && *final(mem) == *old(mem) && *final(alloc) == *old(alloc),
        old(table).has_path(current_path@) ==> final(table).has_path(current_path@)
            && all_rematerialized(
            old(table).probes_at(current_path@).uprobes,
            final(table).probes_at(current_path@).uprobes,
            *old(mem),
            *final(mem),
            old(alloc).next,
            *oracle,
        ),
        forall|q: Seq<char>|
            q != current_path@ ==> (final(table).has_path(q) <==> old(table).has_path(q)),
        forall|q: Seq<char>|
            q != current_path@ && old(table).has_path(q) ==> final(table).probes_at(q) == old(
                table,
            ).probes_at(q),
{
    table.uprobes_init(current_path, mem, alloc, oracle);
}

/// Law: an instruction probe single-steps exactly once.  A trap at the
/// probe point followed by the trap at its single-step marker redirects
/// through the out-of-line slot, resumes at the address just past the
/// original instruction, and leaves no residual in-flight entry.
pub proof fn lemma_insn_probe_single_step(
    s0: CurrentProcessUprobesInner,
    s1: CurrentProcessUprobesInner,
    s2: CurrentProcessUprobesInner,
    cx0: TrapContext,
    cx1: TrapContext,
    cx1b: TrapContext,
    cx2: TrapContext,
    r1: Result<TrapOutcome, UprobeError>,
    r2: Result<TrapOutcome, UprobeError>,
)
    requires
        s0.wf(),
        s0.uprobes.has_addr(cx0.sepc),
        s0.uprobes.probe_at(cx0.sepc).probe_type == ProbeType::Insn,
        trap_entry_ready(s0.uprobes.probe_at(cx0.sepc)),
        // no invocation of this probe is already in flight, and its
        // marker is no probe point of its own
        !s0.current_uprobes.has_key(s0.uprobes.probe_at(cx0.sepc).insn_ebreak_addr),
        !s0.uprobes.has_addr(s0.uprobes.probe_at(cx0.sepc).insn_ebreak_addr),
        // the first trap is dispatched, the relocated instruction runs,
        // and the second trap arrives at the single-step marker
        trap_dispatch_rel(s0, s1, cx0, cx1, r1),
        s1.wf(),
        cx1b.sepc == s0.uprobes.probe_at(cx0.sepc).insn_ebreak_addr,
        trap_dispatch_rel(s1, s2, cx1b, cx2, r2),
    ensures
        r1 == Ok::<TrapOutcome, UprobeError>(TrapOutcome::Entry),
        cx1.sepc == s0.uprobes.probe_at(cx0.sepc).slot_addr,
        r2 == Ok::<TrapOutcome, UprobeError>(
            TrapOutcome::InsnComplete {
                post_handler: s0.uprobes.probe_at(cx0.sepc).post_handler,
            },
        ),
        cx2.sepc == s0.uprobes.probe_at(cx0.sepc).addr + s0.uprobes.probe_at(cx0.sepc).length,
        !s2.current_uprobes.has_key(s0.uprobes.probe_at(cx0.sepc).insn_ebreak_addr),
{
    let p = s0.uprobes.probe_at(cx0.sepc);
    assert(insn_entry_filed(s0, s1, p));
    assert(s1.current_uprobes.entry_at(p.insn_ebreak_addr) == with_stack(p, Seq::empty()));
    assert(s1.uprobes.inner@ == s0.uprobes.inner@);
    assert(!s1.uprobes.has_addr(cx1b.sepc)) by {
        if s1.uprobes.has_addr(cx1b.sepc) {
            let i = s1.uprobes.addr_index(cx1b.sepc);
            assert(s0.uprobes.inner@[i].addr == cx1b.sepc);
            assert(s0.uprobes.has_addr(cx1b.sepc));
        }
    }
    assert(s1.current_uprobes.entry_at(cx1b.sepc).insn_ebreak_addr == cx1b.sepc);
    assert(continuation_retired(s1, s2, cx1b.sepc));
}

/// Law: a function-probe invocation is intercepted and unwound.  When no
/// invocation is in flight yet, the trap at the function's entry diverts
/// the return to the trampoline and records the caller's return address;
/// the trap at the trampoline runs the post handler, resumes at exactly
/// that return address, and retires the in-flight entry.
pub proof fn lemma_func_probe_entry_return(
    s0: CurrentProcessUprobesInner,
    s1: CurrentProcessUprobesInner,
    s2: CurrentProcessUprobesInner,
    cx0: TrapContext,
    cx1: TrapContext,
    cx1b: TrapContext,
    cx2: TrapContext,
    r1: Result<TrapOutcome, UprobeError>,
    r2: Result<TrapOutcome, UprobeError>,
)
    requires
        s0.wf(),
        s0.uprobes.has_addr(cx0.sepc),
        s0.uprobes.probe_at(cx0.sepc).probe_type == ProbeType::SyncFunc,
        s0.uprobes.probe_at(cx0.sepc).post_handler is Some,
        trap_entry_ready(s0.uprobes.probe_at(cx0.sepc)),
        // first invocation: nothing is in flight at the trampoline, and
        // the trampoline is no probe point of its own
        !s0.current_uprobes.has_key(s0.uprobes.probe_at(cx0.sepc).func_ebreak_addr),
        !s0.uprobes.has_addr(s0.uprobes.probe_at(cx0.sepc).func_ebreak_addr),
        // the entry trap is dispatched, the function body runs and
        // returns into the trampoline
        trap_dispatch_rel(s0, s1, cx0, cx1, r1),
        s1.wf(),
        cx1b.sepc == s0.uprobes.probe_at(cx0.sepc).func_ebreak_addr,
        trap_dispatch_rel(s1, s2, cx1b, cx2, r2),
    ensures
        r1 == Ok::<TrapOutcome, UprobeError>(TrapOutcome::Entry),
        cx1.ra == s0.uprobes.probe_at(cx0.sepc).func_ebreak_addr,
        r2 == Ok::<TrapOutcome, UprobeError>(
            TrapOutcome::FuncReturn {
                post_handler: s0.uprobes.probe_at(cx0.sepc).post_handler.unwrap(),
            },
        ),
        // execution resumes at the caller interrupted by the entry trap
        cx2.sepc == cx0.ra,
        // the call-return stack is empty again: the entry is retired
        !s2.current_uprobes.has_key(s0.uprobes.probe_at(cx0.sepc).func_ebreak_addr),
{
    let p = s0.uprobes.probe_at(cx0.sepc);
    assert(sync_entry_filed(s0, s1, cx0, p));
    let filed = s1.current_uprobes.entry_at(p.func_ebreak_addr);
    assert(filed == with_stack(p, Seq::empty().push(cx0.ra)));
    assert(filed.func_ra.len() == 1);
    assert(filed.func_ra.last() == cx0.ra);
    assert(s1.uprobes.inner@ == s0.uprobes.inner@);
    assert(!s1.uprobes.has_addr(cx1b.sepc)) by {
        if s1.uprobes.has_addr(cx1b.sepc) {
            let i = s1.uprobes.addr_index(cx1b.sepc);
            assert(s0.uprobes.inner@[i].addr == cx1b.sepc);
            assert(s0.uprobes.has_addr(cx1b.sepc));
        }
    }
    assert(filed.insn_ebreak_addr != cx1b.sepc);
    assert(func_return_unwound(s1, s2, cx1b.sepc));
    assert(continuation_retired(s1, s2, cx1b.sepc));
}

/// Law: arming and then disarming a materialized probe restores the probed
/// bytes exactly, and the intermediate armed state reads back as the
/// breakpoint encoding of the probe's length.
pub proof fn lemma_arm_disarm_round_trip(
    p: ProbeView,
    m0: UserMemory,
    m1: UserMemory,
    m2: UserMemory,
)
    requires
        p.length == 2 || p.length == 4,
        m0.covers(p.addr as int, p.length as int),
        m0.covers(p.slot_addr as int, p.length as int),
        // the slot holds a copy of the probed instruction, as
        // materialization leaves it
        forall|i: int|
            0 <= i < p.length ==> #[trigger] m0.byte_at(p.slot_addr + i) == m0.byte_at(p.addr + i),
        // the slot lies outside the patched range
        p.addr + p.length <= p.slot_addr || p.slot_addr + p.length <= p.addr,
        arm_rel(p, m0, m1),
        disarm_rel(p, m1, m2),
    ensures
        forall|i: int| 0 <= i < p.length ==> m1.byte_at(p.addr + i) == ebreak_byte(i),
        forall|a: int| m0.covers(a, 1) ==> m2.byte_at(a) == m0.byte_at(a),
{
    assert forall|a: int| m0.covers(a, 1) implies m2.byte_at(a) == m0.byte_at(a) by {
        if p.addr <= a < p.addr + p.length {
            let i = a - p.addr;
            assert(m2.byte_at(a) == m1.byte_at(p.slot_addr + i));
            assert(m0.covers(p.slot_addr + i, 1));
            assert(m1.byte_at(p.slot_addr + i) == m0.byte_at(p.slot_addr + i));
            assert(m0.byte_at(p.slot_addr + i) == m0.byte_at(p.addr + i));
        } else {
            assert(m1.byte_at(a) == m0.byte_at(a));
            assert(m2.byte_at(a) == m1.byte_at(a));
        }
    }
}

} // verus!
