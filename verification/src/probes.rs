//! Probe kinds, trap context, error kinds, and the prologue-scanner oracle.

use vstd::prelude::*;

verus! {

/// The granularity of a probe: a single instruction that is single-stepped
/// out of line, a synchronous function probed at entry and exit, or an
/// asynchronous function, which is representable but unsupported and must be
/// refused at registration time.
#[derive(Copy, Clone, Debug, PartialEq, Eq, Structural)]
pub enum ProbeType {
    Insn,
    SyncFunc,
    AsyncFunc,
}

/// Why an operation of the probing subsystem failed.
#[derive(Copy, Clone, Debug, PartialEq, Eq, Structural)]
pub enum UprobeError {
    /// A probe descriptor could not be constructed.
    InitializationFailure,
    /// The decoder rejected the probed instruction for relocation.
    IllegalInstruction,
    /// Probing an asynchronous function was requested.
    Unimplemented,
    /// The prologue scanner found no stack adjustment for a function probe.
    MissingStackAdjustment,
    /// A breakpoint trap matched neither a probe point nor an active
    /// continuation and must be passed on to the kernel's generic trap path.
    UnknownTrap,
}

/// The machine state handed to the trap handler: the faulting program
/// counter and the two general-purpose registers the state machine reads and
/// writes, the return-address register and the stack pointer.
#[derive(Copy, Clone, Debug, PartialEq, Eq, Structural)]
pub struct TrapContext {
    /// Program counter at which the breakpoint trap was raised.
    pub sepc: usize,
    /// Return-address register (`x1`).
    pub ra: usize,
    /// Stack-pointer register (`x2`).
    pub sp: usize,
}

/// Finds the pair with the given first component in a list of pairs.
pub open spec fn spec_assoc_lookup(entries: Seq<(usize, usize)>, key: usize) -> Option<usize>
    decreases entries.len(),
{
    if entries.len() == 0 {
        None
    } else if entries[0].0 == key {
        Some(entries[0].1)
    } else {
        spec_assoc_lookup(entries.drop_first(), key)
    }
}

/// The prologue scanner's answers, as the host kernel supplies them: for
/// each probed function-entry address, the adjustment the function's
/// prologue applies to the stack pointer.  The scanner itself runs in the
/// host; the registry only consumes its answers.
pub struct StackAdjustOracle {
    /// Pairs of function-entry address and stack-pointer adjustment.
    pub entries: Vec<(usize, usize)>,
}

impl StackAdjustOracle {
    /// The adjustment recorded for `addr`, if the scanner found one.
    pub open spec fn spec_get_sp(self, addr: usize) -> Option<usize> {
        spec_assoc_lookup(self.entries@, addr)
    }

    /// An oracle with no answers.
    pub fn new() -> (r: StackAdjustOracle)
        ensures
            r.entries@.len() == 0,
    {
        StackAdjustOracle { entries: Vec::new() }
    }

    /// Records the scanner's answer for one function-entry address.
    pub fn record(&mut self, addr: usize, adjustment: usize)
        ensures
            final(self).entries@ == old(self).entries@.push((addr, adjustment)),
    {
        self.entries.push((addr, adjustment));
    }

    /// Looks up the stack-pointer adjustment for a function-entry address.
    pub fn get_sp(&self, addr: usize) -> (r: Option<usize>)
        ensures
            r == self.spec_get_sp(addr),
    {
        proof {
            assert(self.entries@.skip(0) =~= self.entries@);
        }
        let mut i: usize = 0;
        while i < self.entries.len()
            invariant
                0 <= i <= self.entries@.len(),
                spec_assoc_lookup(self.entries@, addr) == spec_assoc_lookup(
                    self.entries@.skip(i as int),
                    addr,
                ),
            decreases self.entries@.len() - i,
        {
            let (key, value) = self.entries[i];
            proof {
                assert(self.entries@.skip(i as int).drop_first() =~= self.entries@.skip(
                    i as int + 1,
                ));
            }
            if key == addr {
                return Some(value);
            }
            i = i + 1;
        }
        proof {
            assert(self.entries@.skip(i as int).len() == 0);
        }
        None
    }
}

} // verus!
