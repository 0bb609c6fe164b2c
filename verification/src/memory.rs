//! A model of the probed process's address space.
//!
//! The probing subsystem never touches target memory directly: the host
//! kernel owns the only sanctioned byte-copy primitives between address
//! spaces, and the page allocator that yields fresh executable regions for
//! trampolines and out-of-line slots.  This module models both as values the
//! registry operates on: `UserMemory` is the span of target memory the host
//! exposes to the patch engine, `PageAllocator` hands out fresh,
//! non-overlapping regions inside it.

use vstd::prelude::*;

verus! {

/// Even byte of the compressed breakpoint encoding (`c.ebreak`, 0x9002,
/// stored little-endian).
pub const EBREAK_BYTE_EVEN: u8 = 0x02;

/// Odd byte of the compressed breakpoint encoding.
pub const EBREAK_BYTE_ODD: u8 = 0x90;

/// The byte at offset `i` of the breakpoint pattern: one `c.ebreak` per two
/// bytes, repeated to cover the probed instruction's length.
pub open spec fn ebreak_byte(i: int) -> u8 {
    if i % 2 == 0 {
        EBREAK_BYTE_EVEN
    } else {
        EBREAK_BYTE_ODD
    }
}

/// A span of the target address space, starting at virtual address `base`.
pub struct UserMemory {
    /// Lowest virtual address of the span.
    pub base: usize,
    /// The bytes of the span, `bytes[i]` at virtual address `base + i`.
    pub bytes: Vec<u8>,
}

impl UserMemory {
    /// The span's addresses stay within the machine word.
    pub open spec fn wf(self) -> bool {
        self.base + self.bytes@.len() <= usize::MAX
    }

    /// Whether the addresses `addr..addr + len` all lie in the span.
    pub open spec fn covers(self, addr: int, len: int) -> bool {
        self.base <= addr && addr + len <= self.base + self.bytes@.len()
    }

    /// The byte at virtual address `addr`.
    pub open spec fn byte_at(self, addr: int) -> u8 {
        self.bytes@[addr - self.base]
    }

    /// A fresh span of `size` zeroed bytes starting at `base`.
    pub fn new(base: usize, size: usize) -> (r: UserMemory)
        requires
            base + size <= usize::MAX,
        ensures
            r.wf(),
            r.base == base,
            r.bytes@.len() == size,
            forall|a: int| r.covers(a, 1) ==> r.byte_at(a) == 0u8,
    {
        let zeroed: Vec<u8> = vec![0u8; size];
        UserMemory { base, bytes: zeroed }
    }

    /// Reads the byte at virtual address `addr`.
    pub fn read_byte(&self, addr: usize) -> (r: u8)
        requires
            self.covers(addr as int, 1),
        ensures
            r == self.byte_at(addr as int),
    {
        self.bytes[addr - self.base]
    }

    /// Writes one byte at virtual address `addr`.
    pub fn write_byte(&mut self, addr: usize, value: u8)
        requires
            old(self).covers(addr as int, 1),
        ensures
            final(self).base == old(self).base,
            final(self).bytes@.len() == old(self).bytes@.len(),
            final(self).byte_at(addr as int) == value,
            forall|a: int|
                old(self).covers(a, 1) && a != addr
                    ==> final(self).byte_at(a) == old(self).byte_at(a),
    {
        let index: usize = addr - self.base;
        self.bytes.set(index, value);
    }

    /// Reads `len` consecutive bytes starting at virtual address `addr`.
    pub fn read_bytes(&self, addr: usize, len: usize) -> (r: Vec<u8>)
        requires
            self.covers(addr as int, len as int),
        ensures
            r@.len() == len,
            forall|i: int| 0 <= i < len ==> r@[i] == self.byte_at(addr + i),
    {
        let span_len: usize = self.bytes.len();
        let offset: usize = addr - self.base;
        let mut out: Vec<u8> = Vec::new();
        let mut i: usize = 0;
        while i < len
            invariant
                0 <= i <= len,
                self.covers(addr as int, len as int),
                span_len == self.bytes@.len(),
                offset == addr - self.base,
                out@.len() == i,
                forall|j: int| 0 <= j < i ==> out@[j] == self.byte_at(addr + j),
            decreases len - i,
        {
            out.push(self.bytes[offset + i]);
            i = i + 1;
        }
        out
    }

    /// Writes the given bytes consecutively starting at virtual address
    /// `addr`.
    pub fn write_bytes(&mut self, addr: usize, data: &Vec<u8>)
        requires
            old(self).covers(addr as int, data@.len() as int),
        ensures
            final(self).base == old(self).base,
            final(self).bytes@.len() == old(self).bytes@.len(),
            forall|i: int| 0 <= i < data@.len() ==> final(self).byte_at(addr + i) == data@[i],
            forall|a: int|
                old(self).covers(a, 1) && !(addr <= a < addr + data@.len())
                    ==> final(self).byte_at(a) == old(self).byte_at(a),
    {
        let span_len: usize = self.bytes.len();
        let offset: usize = addr - self.base;
        let mut i: usize = 0;
        while i < data.len()
            invariant
                0 <= i <= data@.len(),
                self.base == old(self).base,
                self.bytes@.len() == old(self).bytes@.len(),
                span_len == self.bytes@.len(),
                offset == addr - self.base,
                old(self).covers(addr as int, data@.len() as int),
                forall|j: int| 0 <= j < i ==> self.byte_at(addr + j) == data@[j],
                forall|a: int|
                    old(self).covers(a, 1) && !(addr <= a < addr + i)
                        ==> self.byte_at(a) == old(self).byte_at(a),
            decreases data@.len() - i,
        {
            self.bytes.set(offset + i, data[i]);
            i = i + 1;
        }
    }
}

/// Allocates fresh trampoline and out-of-line slot regions: each request
/// returns the next unused address, so no region is ever handed out twice.
pub struct PageAllocator {
    /// The lowest address not yet handed out.
    pub next: usize,
}

impl PageAllocator {
    /// An allocator whose first region will start at `start`.
    pub fn new(start: usize) -> (r: PageAllocator)
        ensures
            r.next == start,
    {
        PageAllocator { next: start }
    }

    /// Hands out the fresh region `r..r + len`.
    pub fn allocate(&mut self, len: usize) -> (r: usize)
        requires
            old(self).next + len <= usize::MAX,
        ensures
            r == old(self).next,
            final(self).next == old(self).next + len,
    {
        let region: usize = self.next;
        self.next = self.next + len;
        region
    }
}

} // verus!
