//! Hardware-format definitions for x86_64 paging: memory-layout constants,
//! page-table entry encoding, the saved-register snapshot, and the pure
//! address arithmetic used by the virtual-memory subsystem.

use vstd::prelude::*;

verus! {

// Paged memory constants
pub const PAGEOFFBITS: usize = 12;                       // bits in a page offset
pub const PAGESIZE: usize = 4096;                        // size of a page in bytes
pub const PAGEINDEXBITS: usize = 9;                      // bits in one page-index level
pub const NPAGETABLEENTRIES: usize = 512;                // entries in a page-table page
pub const PAGEOFFMASK: usize = 4095;                     // PAGESIZE - 1

// Page-table entry flags
pub const PTE_P: u64 = 1;       // entry is Present
pub const PTE_W: u64 = 2;       // entry is Writable
pub const PTE_U: u64 = 4;       // entry is User-accessible
pub const PTE_A: u64 = 32;      // entry was Accessed (read or written)
pub const PTE_D: u64 = 64;      // entry was Dirtied (written)
pub const PTE_PS: u64 = 128;    // entry has a large Page Size
pub const PTE_FLAGS_MASK: u64 = 0xFFF;

// Page-fault error flags, found in the saved `reg_err` after a page fault
pub const PFERR_PRESENT: u64 = 0x1;   // fault was a protection violation (not a missing page)
pub const PFERR_WRITE: u64 = 0x2;     // fault happened on a write
pub const PFERR_USER: u64 = 0x4;      // fault happened in user mode (not in the kernel)

// Interrupt numbers
pub const INT_DIVIDE: u64 = 0x0;
pub const INT_DEBUG: u64 = 0x1;
pub const INT_BREAKPOINT: u64 = 0x3;
pub const INT_OVERFLOW: u64 = 0x4;
pub const INT_BOUNDS: u64 = 0x5;
pub const INT_INVALIDOP: u64 = 0x6;
pub const INT_DOUBLEFAULT: u64 = 0x8;
pub const INT_INVALIDTSS: u64 = 0xa;
pub const INT_SEGMENT: u64 = 0xb;
pub const INT_STACK: u64 = 0xc;
pub const INT_GPF: u64 = 0xd;
pub const INT_PAGEFAULT: u64 = 0xe;

pub const INT_HARDWARE: u64 = 32;
pub const INT_TIMER: u64 = 32;

pub const INT_SYS: u64 = 48;
pub const INT_SYS_PANIC: u64 = 48;
pub const INT_SYS_GETPID: u64 = 49;
pub const INT_SYS_YIELD: u64 = 50;
pub const INT_SYS_PAGE_ALLOC: u64 = 51;
pub const INT_SYS_FORK: u64 = 52;
pub const INT_SYS_EXIT: u64 = 53;
pub const INT_SYS_MAPPING: u64 = 54;
pub const INT_SYS_MEM_TOG: u64 = 56;
pub const INT_SYS_BRK: u64 = 57;
pub const INT_SYS_SBRK: u64 = 58;

/// Physical page number of a physical address.
pub fn pagernumber(addr: usize) -> (pn: usize)
    ensures
        pn == addr / 4096,
{
    addr / PAGESIZE
}

/// Physical address of a physical page number.
pub fn pageaddress(pn: usize) -> (addr: usize)
    requires
        pn * 4096 <= usize::MAX,
    ensures
        addr == pn * 4096,
{
    pn * PAGESIZE
}

/// Index of a virtual address at one level of the four-level page table.
/// Level 0 is the root (L4) table and level 3 the last (L1) table.
pub open spec fn spec_pageindex(va: u64, level: int) -> int {
    ((va >> ((12 + 9 * (3 - level)) as u64)) & 0x1FF) as int
}

/// The page index is always a valid entry index.
pub proof fn lemma_pageindex_bounded(va: u64, level: int)
    requires
        0 <= level <= 3,
    ensures
        0 <= spec_pageindex(va, level) < 512,
{
    let sh = (12 + 9 * (3 - level)) as u64;
    assert((va >> sh) & 0x1FF < 512) by (bit_vector);
}

/// Index into the page table at `level` (0 = root) for virtual address `addr`.
pub fn pageindex(addr: usize, level: u32) -> (i: usize)
    requires
        level <= 3,
    ensures
        i == spec_pageindex(addr as u64, level as int),
        i < 512,
{
    proof {
        lemma_pageindex_bounded(addr as u64, level as int);
    }
    let va = addr as u64;
    let shifted: u64 = if level == 0 {
        va >> 39
    } else if level == 1 {
        va >> 30
    } else if level == 2 {
        va >> 21
    } else {
        va >> 12
    };
    proof {
        assert(shifted & 0x1FF < 512) by (bit_vector);
    }
    (shifted & 0x1FF) as usize
}

/// Index into the last-level (L1) table.
pub fn l1pageindex(addr: usize) -> (i: usize)
    ensures
        i == spec_pageindex(addr as u64, 3),
        i < 512,
{
    pageindex(addr, 3)
}

/// Index into the L2 table.
pub fn l2pageindex(addr: usize) -> (i: usize)
    ensures
        i == spec_pageindex(addr as u64, 2),
        i < 512,
{
    pageindex(addr, 2)
}

/// Index into the L3 table.
pub fn l3pageindex(addr: usize) -> (i: usize)
    ensures
        i == spec_pageindex(addr as u64, 1),
        i < 512,
{
    pageindex(addr, 1)
}

/// Index into the root (L4) table.
pub fn l4pageindex(addr: usize) -> (i: usize)
    ensures
        i == spec_pageindex(addr as u64, 0),
        i < 512,
{
    pageindex(addr, 0)
}

/// Offset of an address within its page.
pub fn pageoffset(addr: usize) -> (off: usize)
    ensures
        off == addr % 4096,
{
    proof {
        assert(addr & 4095usize == addr % 4096usize) by (bit_vector);
    }
    addr & PAGEOFFMASK
}

/// Offset of an address within its page.
pub fn page_offset(addr: u64) -> (off: u64)
    ensures
        off == addr % 4096,
{
    proof {
        assert(addr & 4095 == addr % 4096) by (bit_vector);
    }
    addr & 0xFFF
}

/// The physical address held in a page-table entry.
pub open spec fn spec_pte_addr(e: u64) -> u64 {
    e & !0xFFF
}

/// The physical page number held in a page-table entry.
pub open spec fn spec_pte_pn(e: u64) -> int {
    (e >> 12) as int
}

/// The flag bits of a page-table entry.
pub open spec fn spec_pte_flags(e: u64) -> u64 {
    e & 0xFFF
}

/// Whether a page-table entry has the Present bit.
pub open spec fn pte_present(e: u64) -> bool {
    e & 1 == 1
}

/// The address and the page number of an entry agree.
pub proof fn lemma_pte_addr_pn(e: u64)
    ensures
        spec_pte_addr(e) == spec_pte_pn(e) * 4096,
        spec_pte_pn(e) < 0x10_0000_0000_0000,
{
    assert(e & !0xFFF == (e >> 12) * 4096 && (e >> 12) < 0x10_0000_0000_0000u64) by (bit_vector);
}

/// The physical address contained in a page-table entry.
pub fn pte_addr(pageentry: u64) -> (addr: u64)
    ensures
        addr == spec_pte_addr(pageentry),
{
    pageentry & !0xFFF
}

/// The flag bits contained in a page-table entry.
pub fn pte_flags(pageentry: u64) -> (flags: u64)
    ensures
        flags == spec_pte_flags(pageentry),
{
    pageentry & 0xFFF
}

/// One page-table page: 512 hardware-format 64-bit entries.
#[allow(non_camel_case_types)]
pub struct x86_64_pagetable {
    pub entry: Vec<u64>,
}

impl x86_64_pagetable {
    /// A fresh page-table page with every entry zero (nothing present).
    pub fn new() -> (t: Self)
        ensures
            t.entry@.len() == 512,
            forall|i: int| 0 <= i < 512 ==> t.entry@[i] == 0,
    {
        let entry: Vec<u64> = vec![0u64; 512];
        x86_64_pagetable { entry }
    }
}

/// The full register snapshot saved by the hardware and the trap entry
/// code on every interrupt, fault, and syscall.
#[allow(non_camel_case_types)]
#[derive(Clone, Copy)]
pub struct x86_64_registers {
    pub reg_rax: u64,
    pub reg_rcx: u64,
    pub reg_rdx: u64,
    pub reg_rbx: u64,
    pub reg_rbp: u64,
    pub reg_rsi: u64,
    pub reg_rdi: u64,
    pub reg_r8: u64,
    pub reg_r9: u64,
    pub reg_r10: u64,
    pub reg_r11: u64,
    pub reg_r12: u64,
    pub reg_r13: u64,
    pub reg_r14: u64,
    pub reg_r15: u64,
    pub reg_fs: u64,
    pub reg_gs: u64,
    pub reg_intno: u64,
    pub reg_err: u64,
    pub reg_rip: u64,
    pub reg_cs: u16,
    pub reg_rflags: u64,
    pub reg_rsp: u64,
    pub reg_ss: u16,
}

impl x86_64_registers {
    /// Whether every register of the snapshot is zero.
    pub open spec fn is_zeroed(self) -> bool {
        &&& self.reg_rax == 0 && self.reg_rcx == 0 && self.reg_rdx == 0 && self.reg_rbx == 0
        &&& self.reg_rbp == 0 && self.reg_rsi == 0 && self.reg_rdi == 0
        &&& self.reg_r8 == 0 && self.reg_r9 == 0 && self.reg_r10 == 0 && self.reg_r11 == 0
        &&& self.reg_r12 == 0 && self.reg_r13 == 0 && self.reg_r14 == 0 && self.reg_r15 == 0
        &&& self.reg_fs == 0 && self.reg_gs == 0
        &&& self.reg_intno == 0 && self.reg_err == 0
        &&& self.reg_rip == 0 && self.reg_cs == 0 && self.reg_rflags == 0
        &&& self.reg_rsp == 0 && self.reg_ss == 0
    }
}

impl Default for x86_64_registers {
    /// The all-zero register snapshot.
    fn default() -> (r: Self)
        ensures
            r.is_zeroed(),
    {
        x86_64_registers {
            reg_rax: 0,
            reg_rcx: 0,
            reg_rdx: 0,
            reg_rbx: 0,
            reg_rbp: 0,
            reg_rsi: 0,
            reg_rdi: 0,
            reg_r8: 0,
            reg_r9: 0,
            reg_r10: 0,
            reg_r11: 0,
            reg_r12: 0,
            reg_r13: 0,
            reg_r14: 0,
            reg_r15: 0,
            reg_fs: 0,
            reg_gs: 0,
            reg_intno: 0,
            reg_err: 0,
            reg_rip: 0,
            reg_cs: 0,
            reg_rflags: 0,
            reg_rsp: 0,
            reg_ss: 0,
        }
    }
}

/// The result of looking a virtual address up in a page table: physical
/// page number (-1 if unmapped), physical address (all ones if unmapped),
/// and permission bits (0 if unmapped).
pub struct VAMapping {
    pub pn: i32,
    pub pa: u64,
    pub perm: i32,
}

impl VAMapping {
    /// The "unmapped" result value.
    pub fn default() -> (m: Self)
        ensures
            m.pn == -1,
            m.pa == u64::MAX,
            m.perm == 0,
    {
        VAMapping { pn: -1, pa: u64::MAX, perm: 0 }
    }
}

} // verus!
