//! User-space dynamic probing (uprobes) for a RISC-V teaching kernel.
//!
//! The crate has two halves.  `riscv_insn_decode` is a pure instruction
//! classifier: it computes the length of an instruction (16- or 32-bit
//! encoding) and decides whether the instruction may safely be relocated
//! into an out-of-line execution slot.  `uprobes` is the probe registry and
//! trap state machine: it tracks installed breakpoints per process image,
//! patches and unpatches code in a model of the target address space, and
//! resumes execution correctly, including nested function-probe call stacks.
//!
//! Host-kernel services (cross-address-space byte copies, page allocation,
//! resolving the running image, prologue scanning, and the user callbacks
//! themselves) are supplied by the embedding kernel: the registry works on a
//! `UserMemory` value and a `PageAllocator` value standing for the target
//! address space, takes the prologue scanner's answers as a
//! `StackAdjustOracle`, and reports which callback the host must run through
//! opaque handler tokens.

pub mod memory;
pub mod probes;
pub mod riscv_insn_decode;
pub mod uprobes;
