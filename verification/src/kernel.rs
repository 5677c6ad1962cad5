//! The kernel context: physical memory, the page-table arena, the process
//! table, and the console, together with the physical page allocator.
//!
//! Physical memory is `NPAGES` page frames.  Each frame appears twice in the
//! model, in the role it can play: `mem` holds its bytes, and `tables` holds
//! its 512 hardware-format entries for when the frame is used as a page-table
//! page.  A ghost map records which frames currently act as page-table pages
//! and at which level of the tree, which gives the walk proofs a forest
//! structure to lean on; only frames handed out by the allocator ever become
//! table pages.

use vstd::prelude::*;
use crate::loader::PROGRAM_ENTRY;
use crate::x86_64::{
    x86_64_pagetable, x86_64_registers, pte_present, spec_pte_pn, spec_pte_flags, PAGESIZE,
    INT_TIMER, INT_PAGEFAULT, INT_SYS_PANIC, INT_SYS_GETPID, INT_SYS_YIELD, INT_SYS_PAGE_ALLOC,
    INT_SYS_FORK, INT_SYS_EXIT, INT_SYS_MAPPING, INT_SYS_MEM_TOG, INT_SYS_BRK, INT_SYS_SBRK,
    PFERR_USER,
};

verus! {

// Process state values
pub const P_FREE: u32 = 0;
pub const P_RUNNABLE: u32 = 1;
pub const P_BLOCKED: u32 = 2;
pub const P_BROKEN: u32 = 3;

/// Maximum number of processes
pub const NPROC: usize = 16;

/// Kernel image start address
pub const KERNEL_START_ADDR: usize = 0x40000;
/// Top of the kernel stack; the kernel footprint ends here
pub const KERNEL_STACK_TOP: usize = 0x80000;
/// First application-accessible address
pub const PROC_START_ADDR: usize = 0x100000;
/// Per-process initial memory region size
pub const PROC_SIZE: usize = 0x40000;
/// Physical memory size
pub const MEMSIZE_PHYSICAL: usize = 0x200000;
/// Number of physical pages
pub const NPAGES: usize = 512;
/// Virtual memory size
pub const MEMSIZE_VIRTUAL: usize = 0x300000;
/// Timer interrupt frequency (interrupts per second)
pub const HZ: u32 = 100;

// Console dimensions
pub const CONSOLE_COLUMNS: usize = 80;
pub const CONSOLE_ROWS: usize = 25;

/// Ownership record of one physical page frame.  `refcount` 0 means the
/// page is free; otherwise `owner` tells who holds it.
#[derive(Clone, Copy)]
pub struct PhysicalPageInfo {
    pub owner: i8,
    pub refcount: i8,
}

/// Owner tags for physical pages.  A non-negative owner value in a
/// `PhysicalPageInfo` is a process id instead.
#[derive(Clone, Copy, PartialEq, Eq, Structural)]
pub enum PageOwner {
    PoFree,
    PoReserved,
    PoKernel,
}

impl PageOwner {
    /// The owner tag as stored in a `PhysicalPageInfo`.
    pub fn value(self) -> (v: i8)
        ensures
            self is PoFree ==> v == 0,
            self is PoReserved ==> v == -1,
            self is PoKernel ==> v == -2,
    {
        match self {
            PageOwner::PoFree => 0,
            PageOwner::PoReserved => -1,
            PageOwner::PoKernel => -2,
        }
    }
}

/// One process control block.
pub struct Proc {
    pub p_pid: i32,
    pub p_registers: x86_64_registers,
    pub p_state: u32,
    pub p_pagetable: usize,
    pub display_status: u8,
}

/// The whole machine and kernel state.
pub struct Kernel {
    pub pageinfo: Vec<PhysicalPageInfo>,
    pub tables: Vec<x86_64_pagetable>,
    pub mem: Vec<u8>,
    pub processes: Vec<Proc>,
    pub current: usize,
    pub ticks: u32,
    pub kernel_pagetable: usize,
    pub console: Vec<u16>,
    pub cursorpos: i32,
    pub disp_global: u8,
    pub table_level: Ghost<Seq<int>>,
}

impl Kernel {
    /// Role of page `pn`: 0 for a frame that is not a page-table page,
    /// 4 for a root table down to 1 for a last-level table.
    pub open spec fn lvl(self, pn: int) -> int {
        self.table_level@[pn]
    }

    /// The page-table entry stored in slot `i` of table page `t`.
    pub open spec fn entry(self, t: int, i: int) -> u64 {
        self.tables@[t].entry@[i]
    }

    pub open spec fn wf_lens(self) -> bool {
        &&& self.pageinfo@.len() == NPAGES
        &&& self.tables@.len() == NPAGES
        &&& self.table_level@.len() == NPAGES
        &&& forall|t: int|
            0 <= t < NPAGES ==> (#[trigger] self.tables@[t]).entry@.len() == 512
        &&& self.mem@.len() == MEMSIZE_PHYSICAL
        &&& self.processes@.len() == NPROC
        &&& self.console@.len() == CONSOLE_ROWS * CONSOLE_COLUMNS
        &&& self.current < NPROC
    }

    /// The page-table forest invariant.  Table pages are live (allocated),
    /// a table at level >= 2 points only to tables one level below with the
    /// full kernel permission bits, no frame is pointed to by two distinct
    /// table slots, last-level entries stay within physical memory, and
    /// frames that are not table pages hold no entries at all.
    pub open spec fn wf_levels(self) -> bool {
        &&& forall|pn: int| 0 <= pn < NPAGES ==> 0 <= #[trigger] self.table_level@[pn] <= 4
        &&& forall|pn: int|
            0 <= pn < NPAGES && #[trigger] self.table_level@[pn] >= 1
                ==> self.pageinfo@[pn].refcount > 0
        &&& forall|t: int, i: int|
            #![trigger self.tables@[t].entry@[i]]
            0 <= t < NPAGES && 0 <= i < 512 && self.lvl(t) >= 2 && pte_present(self.entry(t, i))
                ==> {
                &&& 0 <= spec_pte_pn(self.entry(t, i)) < NPAGES
                &&& self.lvl(spec_pte_pn(self.entry(t, i))) == self.lvl(t) - 1
                &&& spec_pte_flags(self.entry(t, i)) == 7
            }
        &&& forall|t: int, i: int|
            #![trigger self.tables@[t].entry@[i]]
            0 <= t < NPAGES && 0 <= i < 512 && self.lvl(t) == 1 ==> 0 <= spec_pte_pn(
                self.entry(t, i),
            ) < NPAGES
        &&& forall|t: int, i: int|
            #![trigger self.tables@[t].entry@[i]]
            0 <= t < NPAGES && 0 <= i < 512 && self.lvl(t) == 0 ==> self.entry(t, i) == 0
        &&& forall|t1: int, i1: int, t2: int, i2: int|
            #![trigger self.tables@[t1].entry@[i1], self.tables@[t2].entry@[i2]]
            0 <= t1 < NPAGES && 0 <= i1 < 512 && 0 <= t2 < NPAGES && 0 <= i2 < 512
                && self.lvl(t1) >= 2 && self.lvl(t2) >= 2 && pte_present(self.entry(t1, i1))
                && pte_present(self.entry(t2, i2)) && (t1 != t2 || i1 != i2) ==> spec_pte_pn(
                self.entry(t1, i1),
            ) != spec_pte_pn(self.entry(t2, i2))
    }

    pub open spec fn wf_pageinfo(self) -> bool {
        forall|pn: int|
            0 <= pn < NPAGES ==> {
                let pi = #[trigger] self.pageinfo@[pn];
                &&& pi.refcount >= 0
                &&& (pi.refcount == 0 ==> pi.owner == 0)
                &&& (pi.owner == -2 || pi.owner == -1 || 0 <= pi.owner < 16)
            }
    }

    pub open spec fn wf_processes(self) -> bool {
        &&& forall|p: int|
            0 <= p < NPROC ==> (#[trigger] self.processes@[p]).p_pid == p
        &&& forall|p: int|
            0 <= p < NPROC ==> (#[trigger] self.processes@[p]).p_state <= 3
        &&& forall|p: int|
            0 <= p < NPROC && (#[trigger] self.processes@[p]).p_state != P_FREE ==> {
                &&& self.processes@[p].p_pagetable < NPAGES
                &&& self.lvl(self.processes@[p].p_pagetable as int) == 4
            }
        &&& self.kernel_pagetable < NPAGES
        &&& self.lvl(self.kernel_pagetable as int) == 4
    }

    /// The kernel state invariant: every verified operation preserves it.
    pub open spec fn wf(self) -> bool {
        &&& self.wf_lens()
        &&& self.wf_levels()
        &&& self.wf_pageinfo()
        &&& self.wf_processes()
    }

    // Frame predicates relating two kernel states.

    pub open spec fn same_vm(self, other: Kernel) -> bool {
        &&& self.tables@ == other.tables@
        &&& self.table_level@ == other.table_level@
    }

    pub open spec fn same_mem(self, other: Kernel) -> bool {
        self.mem@ == other.mem@
    }

    pub open spec fn same_procs(self, other: Kernel) -> bool {
        &&& self.processes@ == other.processes@
        &&& self.current == other.current
        &&& self.ticks == other.ticks
    }

    pub open spec fn same_console(self, other: Kernel) -> bool {
        &&& self.console@ == other.console@
        &&& self.cursorpos == other.cursorpos
        &&& self.disp_global == other.disp_global
        &&& self.kernel_pagetable == other.kernel_pagetable
    }

    pub open spec fn same_pageinfo(self, other: Kernel) -> bool {
        self.pageinfo@ == other.pageinfo@
    }

    /// Allocations only ever add owners: pages that were live keep their
    /// record, and pages that changed were free before.
    pub open spec fn pageinfo_monotone(self, pre: Kernel) -> bool {
        &&& self.pageinfo@.len() == pre.pageinfo@.len()
        &&& forall|pn: int|
            0 <= pn < pre.pageinfo@.len() && pre.pageinfo@[pn].refcount != 0
                ==> #[trigger] self.pageinfo@[pn] == pre.pageinfo@[pn]
    }

    /// Whether physical address `addr` may be handed out by the allocator:
    /// page-aligned, inside physical memory, above the kernel footprint,
    /// and outside the reserved I/O hole.
    pub open spec fn spec_page_eligible(addr: int) -> bool {
        &&& addr % 4096 == 0
        &&& KERNEL_STACK_TOP <= addr < MEMSIZE_PHYSICAL
        &&& !(0xA0000 <= addr < 0x100000)
    }

    /// Whether an `assign_physical_page(addr, _)` call succeeds in state
    /// `self`: the address is eligible and the page is currently free.
    pub open spec fn spec_assign_ok(self, addr: int) -> bool {
        &&& Self::spec_page_eligible(addr)
        &&& self.pageinfo@[addr / 4096].refcount == 0
    }

    /// Valid owner arguments for the allocator: the kernel tag or a
    /// process id (process slot 0 never owns user pages).
    pub open spec fn spec_valid_owner(owner: int) -> bool {
        owner == -2 || 1 <= owner < 16
    }

    /// Whether any eligible page is still free.
    pub open spec fn spec_has_free_page(self) -> bool {
        exists|pn: int|
            0 <= pn < NPAGES && Self::spec_page_eligible(pn * 4096)
                && #[trigger] self.pageinfo@[pn].refcount == 0
    }

    /// Claim the physical page at `addr` for `owner`.  Fails, returning -1
    /// and changing nothing, when the address is misaligned, out of range,
    /// below the kernel footprint, inside the reserved I/O hole, or the
    /// page is already owned; on success the page's refcount rises from 0
    /// to 1, the owner is recorded, and the page number is returned.
    pub fn assign_physical_page(&mut self, addr: usize, owner: i8) -> (r: i32)
        requires
            old(self).wf(),
            Self::spec_valid_owner(owner as int),
        ensures
            final(self).wf(),
            r >= 0 <==> old(self).spec_assign_ok(addr as int),
            r >= 0 ==> {
                &&& r == addr as int / 4096
                &&& final(self).pageinfo@ == old(self).pageinfo@.update(
                    addr as int / 4096,
                    PhysicalPageInfo { owner, refcount: 1 },
                )
            },
            r < 0 ==> r == -1 && final(self).same_pageinfo(*old(self)),
            final(self).pageinfo_monotone(*old(self)),
            final(self).same_vm(*old(self)),
            final(self).same_mem(*old(self)),
            final(self).same_procs(*old(self)),
            final(self).same_console(*old(self)),
    {
        if addr % PAGESIZE != 0 {
            return -1;
        }
        if addr < KERNEL_STACK_TOP || addr >= MEMSIZE_PHYSICAL {
            return -1;
        }
        if addr >= 0xA0000 && addr < PROC_START_ADDR {
            return -1;
        }
        let pn = addr / PAGESIZE;
        if self.pageinfo[pn].refcount != 0 {
            return -1;
        }
        self.pageinfo[pn] = PhysicalPageInfo { owner, refcount: 1 };
        pn as i32
    }

    /// Find and claim any free physical page for `owner`.  Returns the
    /// physical address of the page, or -1 exactly when no eligible page
    /// is free.
    pub fn palloc(&mut self, owner: i8) -> (r: i32)
        requires
            old(self).wf(),
            Self::spec_valid_owner(owner as int),
        ensures
            final(self).wf(),
            r >= 0 <==> old(self).spec_has_free_page(),
            r >= 0 ==> {
                &&& r % 4096 == 0
                &&& Self::spec_page_eligible(r as int)
                &&& old(self).pageinfo@[r as int / 4096].refcount == 0
                &&& final(self).pageinfo@ == old(self).pageinfo@.update(
                    r as int / 4096,
                    PhysicalPageInfo { owner, refcount: 1 },
                )
            },
            r < 0 ==> r == -1 && final(self).same_pageinfo(*old(self)),
            final(self).pageinfo_monotone(*old(self)),
            final(self).same_vm(*old(self)),
            final(self).same_mem(*old(self)),
            final(self).same_procs(*old(self)),
            final(self).same_console(*old(self)),
    {
        let mut pn: usize = KERNEL_STACK_TOP / PAGESIZE;
        while pn < NPAGES
            invariant
                self.wf(),
                Self::spec_valid_owner(owner as int),
                KERNEL_STACK_TOP / PAGESIZE <= pn <= NPAGES,
                forall|p: int|
                    0 <= p < pn && Self::spec_page_eligible(p * 4096)
                        ==> #[trigger] self.pageinfo@[p].refcount != 0,
                *self == *old(self),
            decreases NPAGES - pn,
        {
            let addr = pn * PAGESIZE;
            if !(addr >= 0xA0000 && addr < PROC_START_ADDR) {
                if self.pageinfo[pn].refcount == 0 {
                    let r = self.assign_physical_page(addr, owner);
                    assert(r >= 0);
                    return (pn * PAGESIZE) as i32;
                }
            }
            pn = pn + 1;
        }
        assert(!self.spec_has_free_page()) by {
            assert forall|p: int|
                0 <= p < NPAGES && Self::spec_page_eligible(p * 4096) implies #[trigger] self
                .pageinfo@[p].refcount != 0 by {
                assert(p >= 128) by {
                    if p < 128 {
                        assert(p * 4096 < KERNEL_STACK_TOP);
                    }
                };
            };
        };
        -1
    }

    /// No page can be assigned twice: once an assignment for `addr`
    /// succeeds, any further assignment of the same address must fail
    /// until the page is released, and the design has no release path.
    pub proof fn lemma_allocator_exclusive(pre: Kernel, post: Kernel, addr: int, owner: i8)
        requires
            pre.wf(),
            pre.spec_assign_ok(addr),
            post.pageinfo@ == pre.pageinfo@.update(
                addr / 4096,
                PhysicalPageInfo { owner, refcount: 1 },
            ),
        ensures
            !post.spec_assign_ok(addr),
    {
        assert(0 <= addr / 4096 < NPAGES);
    }

    /// A live page has exactly one owner tag recorded, and it is a real
    /// owner: the kernel, the reserved region, or a process id.
    pub proof fn lemma_owner_well_formed(k: Kernel, pn: int)
        requires
            k.wf(),
            0 <= pn < NPAGES,
            k.pageinfo@[pn].refcount > 0,
        ensures
            k.pageinfo@[pn].owner == -2 || k.pageinfo@[pn].owner == -1 || 0 <= k.pageinfo@[pn].owner
                < 16,
    {
    }
    /// The physical-page ownership laid out at boot: page zero and the
    /// I/O hole reserved, the kernel image and stack owned by the kernel,
    /// everything else free.
    pub open spec fn spec_initial_pageinfo(pn: int) -> PhysicalPageInfo {
        if pn == 0 {
            PhysicalPageInfo { owner: -1i8, refcount: 1i8 }
        } else if 64 <= pn < 128 {
            PhysicalPageInfo { owner: -2i8, refcount: 1i8 }
        } else if 160 <= pn < 256 {
            PhysicalPageInfo { owner: -1i8, refcount: 1i8 }
        } else {
            PhysicalPageInfo { owner: 0i8, refcount: 0i8 }
        }
    }

    /// Fresh machine state as the boot loader hands it over: ownership of
    /// physical pages laid out, all tables empty, every process slot
    /// free, and the kernel's own page table built with an identity
    /// mapping of physical memory (kernel-only; the console page also
    /// user-accessible so applications can print).
    #[verifier::loop_isolation(false)]
    pub fn new() -> (k: Kernel)
        ensures
            k.wf(),
            k.current == 0,
            k.ticks == 0,
            k.cursorpos == 0,
            k.disp_global == 0,
            forall|p: int|
                0 <= p < NPROC ==> (#[trigger] k.processes@[p]).p_state == P_FREE,
            forall|p: int|
                0 <= p < NPROC ==> (#[trigger] k.processes@[p]).p_registers.is_zeroed(),
            forall|i: int| 0 <= i < 2000 ==> #[trigger] k.console@[i] == 0,
            forall|pn: int|
                0 <= pn < NPAGES && Self::spec_initial_pageinfo(pn).refcount != 0
                    ==> #[trigger] k.pageinfo@[pn] == Self::spec_initial_pageinfo(pn),
    {
        let mut pageinfo: Vec<PhysicalPageInfo> = Vec::new();
        let mut pn: usize = 0;
        while pn < NPAGES
            invariant
                pageinfo@.len() == pn,
                pn <= NPAGES,
                forall|q: int|
                    0 <= q < pn ==> #[trigger] pageinfo@[q] == Self::spec_initial_pageinfo(q),
            decreases NPAGES - pn,
        {
            let addr = pn * PAGESIZE;
            let info = if addr == 0 {
                PhysicalPageInfo { owner: -1, refcount: 1 }
            } else if addr >= KERNEL_START_ADDR && addr < KERNEL_STACK_TOP {
                PhysicalPageInfo { owner: -2, refcount: 1 }
            } else if addr >= 0xA0000 && addr < PROC_START_ADDR {
                PhysicalPageInfo { owner: -1, refcount: 1 }
            } else {
                PhysicalPageInfo { owner: 0, refcount: 0 }
            };
            pageinfo.push(info);
            pn = pn + 1;
        }
        let mut tables: Vec<x86_64_pagetable> = Vec::new();
        let mut t: usize = 0;
        while t < NPAGES
            invariant
                tables@.len() == t,
                t <= NPAGES,
                forall|q: int|
                    0 <= q < t ==> (#[trigger] tables@[q]).entry@.len() == 512,
                forall|q: int, e: int|
                    0 <= q < t && 0 <= e < 512 ==> #[trigger] tables@[q].entry@[e] == 0,
            decreases NPAGES - t,
        {
            tables.push(x86_64_pagetable::new());
            t = t + 1;
        }
        let mem: Vec<u8> = vec![0u8; MEMSIZE_PHYSICAL];
        let console: Vec<u16> = vec![0u16; CONSOLE_ROWS * CONSOLE_COLUMNS];
        proof {
            assert forall|i: int| 0 <= i < 2000 implies #[trigger] console@[i] == 0 by {
                assert(cloned(0u16, console@[i]));
            }
        }
        // the kernel's root page table lives in the first page past the
        // kernel footprint
        let kroot: usize = KERNEL_STACK_TOP / PAGESIZE;
        let mut processes: Vec<Proc> = Vec::new();
        let mut p: usize = 0;
        while p < NPROC
            invariant
                processes@.len() == p,
                p <= NPROC,
                forall|q: int|
                    0 <= q < p ==> {
                        &&& (#[trigger] processes@[q]).p_pid == q
                        &&& processes@[q].p_state == P_FREE
                        &&& processes@[q].p_pagetable == KERNEL_STACK_TOP / PAGESIZE
                        &&& processes@[q].p_registers.is_zeroed()
                    },
            decreases NPROC - p,
        {
            processes.push(
                Proc {
                    p_pid: p as i32,
                    p_registers: x86_64_registers::default(),
                    p_state: P_FREE,
                    p_pagetable: kroot,
                    display_status: 0,
                },
            );
            p = p + 1;
        }
        let mut k = Kernel {
            pageinfo,
            tables,
            mem,
            processes,
            current: 0,
            ticks: 0,
            kernel_pagetable: kroot,
            console,
            cursorpos: 0,
            disp_global: 0,
            table_level: Ghost(Seq::new(NPAGES as nat, |q: int| 0int)),
        };
        // claim the kernel page-table page
        k.pageinfo[kroot] = PhysicalPageInfo { owner: -2, refcount: 1 };
        k.table_level = Ghost(k.table_level@.update(kroot as int, 4));
        proof {
            assert(k.wf_lens());
            assert(k.pageinfo@[kroot as int] == PhysicalPageInfo { owner: -2i8, refcount: 1i8 });
            assert forall|pn: int| 0 <= pn < NPAGES implies {
                let pi = #[trigger] k.pageinfo@[pn];
                &&& pi.refcount >= 0
                &&& (pi.refcount == 0 ==> pi.owner == 0)
                &&& (pi.owner == -2 || pi.owner == -1 || 0 <= pi.owner < 16)
            } by {
                if pn != kroot {
                    assert(k.pageinfo@[pn] == Self::spec_initial_pageinfo(pn));
                }
            }
            assert(k.wf_pageinfo());
            assert(0u64 & 1 == 0) by (bit_vector);
            assert(k.wf_levels());
            assert(k.wf_processes());
        }
        // identity-map physical memory for the kernel, then open the
        // console page to applications
        proof {
            assert(3i32 & 1i32 == 1 && 7i32 & 1i32 == 1) by (bit_vector);
        }
        let _ = k.virtual_memory_map(kroot, 0, 0, MEMSIZE_PHYSICAL, 3);
        let _ = k.virtual_memory_map(kroot, 0xB8000, 0xB8000, PAGESIZE, 7);
        k
    }

    /// Pick the next process to run: scan the table from just past the
    /// last-run slot, wrapping around, and return the first Runnable one.
    /// Returns -1 exactly when no process is Runnable (the machine should
    /// then idle until the next interrupt).
    pub fn schedule(&self) -> (r: i32)
        requires
            self.wf(),
        ensures
            r == -1 || 0 <= r < NPROC,
            r == -1 <==> (forall|p: int|
                0 <= p < NPROC ==> (#[trigger] self.processes@[p]).p_state != P_RUNNABLE),
            r >= 0 ==> {
                &&& 0 <= r < NPROC
                &&& self.processes@[r as int].p_state == P_RUNNABLE
                &&& exists|n: int|
                    #![trigger (self.current + n) % (NPROC as int)]
                    1 <= n <= NPROC && r == (self.current + n) % (NPROC as int) && (forall|
                        m: int,
                    |
                        1 <= m < n ==> (#[trigger] self.processes@[(self.current + m) % (
                        NPROC as int)]).p_state != P_RUNNABLE)
            },
    {
        let mut n: usize = 1;
        while n <= NPROC
            invariant
                self.wf(),
                1 <= n <= NPROC + 1,
                forall|m: int|
                    1 <= m < n ==> (#[trigger] self.processes@[(self.current + m) % (
                    NPROC as int)]).p_state != P_RUNNABLE,
            decreases NPROC + 1 - n,
        {
            let idx = (self.current + n) % NPROC;
            if self.processes[idx].p_state == P_RUNNABLE {
                proof {
                    let ghost nn = n as int;
                    assert(idx == (self.current + nn) % (NPROC as int));
                }
                return idx as i32;
            }
            n = n + 1;
        }
        proof {
            let c = self.current as int;
            assert forall|p: int| 0 <= p < NPROC implies (#[trigger] self.processes@[p]).p_state
                != P_RUNNABLE by {
                let m = if p > c {
                    p - c
                } else {
                    p + NPROC - c
                };
                assert(1 <= m <= NPROC);
                assert((c + m) % (NPROC as int) == p) by (nonlinear_arith)
                    requires
                        0 <= p < 16,
                        0 <= c < 16,
                        m == (if p > c {
                            p - c
                        } else {
                            p + 16 - c
                        }),
                ;
            }
        }
        -1
    }

    /// Make `pid` the current process.  The binary around the library
    /// then installs its page table in the hardware page-table base
    /// register, restores its saved registers, and enters user mode;
    /// control only comes back through `exception`.
    pub fn run(&mut self, pid: usize)
        requires
            old(self).wf(),
            pid < NPROC,
            old(self).processes@[pid as int].p_state == P_RUNNABLE,
        ensures
            final(self).wf(),
            final(self).current == pid,
            final(self).ticks == old(self).ticks,
            final(self).processes@ == old(self).processes@,
            final(self).same_vm(*old(self)),
            final(self).same_mem(*old(self)),
            final(self).same_pageinfo(*old(self)),
            final(self).same_console(*old(self)),
    {
        self.current = pid;
    }
}

/// What the trap dispatcher asks the surrounding binary to do next:
/// resume the current process, run the scheduler, or halt the machine on
/// an unrecoverable kernel-mode fault.
#[derive(Clone, Copy, Debug, PartialEq, Eq, Structural)]
pub enum TrapAction {
    Resume,
    Reschedule,
    Fatal,
}

/// The saved snapshot with its return-value register replaced.
pub open spec fn spec_regs_with_rax(regs: x86_64_registers, rax: u64) -> x86_64_registers {
    x86_64_registers { reg_rax: rax, ..regs }
}

impl Kernel {
    /// The trap dispatcher: the single entry point invoked on every
    /// interrupt, exception, and syscall, with the hardware-saved
    /// register snapshot.  Saves the snapshot into the current process
    /// (the trap entry code has already switched to the kernel page
    /// table), performs the requested service, and tells the caller
    /// whether to resume the current process, reschedule, or halt the
    /// whole machine.
    ///
    /// A fault raised while the kernel itself was executing (the error
    /// code lacks the user-mode bit) is fatal to the machine.  A fault in
    /// user mode breaks only the offending process: every other process
    /// is left exactly as it was and stays eligible for scheduling.
    ///
    /// The exit service returns the caller's slot to Free, so fork may
    /// reuse it; the physical pages the process held are never reclaimed
    /// (there is no release path), and Broken processes in particular
    /// keep their slot forever.
    #[verifier::rlimit(100)]
    pub fn exception(&mut self, regs: &x86_64_registers) -> (action: TrapAction)
        requires
            old(self).wf(),
            1 <= old(self).current < NPROC,
            old(self).processes@[old(self).current as int].p_state == P_RUNNABLE,
        ensures
            final(self).wf(),
            final(self).current == old(self).current,
            final(self).console@ == old(self).console@,
            final(self).cursorpos == old(self).cursorpos,
            final(self).kernel_pagetable == old(self).kernel_pagetable,
            regs.reg_intno != INT_SYS_FORK ==> final(self).mem@ == old(self).mem@,
            regs.reg_intno != INT_TIMER ==> final(self).ticks == old(self).ticks,
            // the timer: count the tick and hand the CPU to the scheduler
            regs.reg_intno == INT_TIMER ==> {
                &&& action is Reschedule
                &&& final(self).ticks == ((old(self).ticks + 1) as u32)
                &&& final(self).processes@ == old(self).processes@.update(
                    old(self).current as int,
                    Proc {
                        p_registers: *regs,
                        ..old(self).processes@[old(self).current as int]
                    },
                )
            },
            regs.reg_intno == INT_SYS_GETPID ==> {
                &&& action is Resume
                &&& final(self).processes@ == old(self).processes@.update(
                    old(self).current as int,
                    Proc {
                        p_registers: spec_regs_with_rax(*regs, old(self).current as u64),
                        ..old(self).processes@[old(self).current as int]
                    },
                )
            },
            regs.reg_intno == INT_SYS_YIELD ==> {
                &&& action is Reschedule
                &&& final(self).processes@ == old(self).processes@.update(
                    old(self).current as int,
                    Proc {
                        p_registers: *regs,
                        ..old(self).processes@[old(self).current as int]
                    },
                )
            },
            // page allocation: claim the requested page for the caller
            // and map it into its address space, or report -1
            regs.reg_intno == INT_SYS_PAGE_ALLOC ==> {
                &&& action is Resume
                &&& {
                    let rax = final(self).processes@[old(self).current as int].p_registers.reg_rax;
                    &&& (rax == 0 || rax == u64::MAX)
                    &&& (rax == 0 ==> {
                        &&& old(self).spec_assign_ok(regs.reg_rdi as int)
                        &&& final(self).spec_mapped(
                            old(self).processes@[old(self).current as int].p_pagetable as int,
                            regs.reg_rdi,
                        )
                        &&& final(self).spec_perm(
                            old(self).processes@[old(self).current as int].p_pagetable as int,
                            regs.reg_rdi,
                        ) == 7
                        &&& final(self).spec_pa(
                            old(self).processes@[old(self).current as int].p_pagetable as int,
                            regs.reg_rdi,
                        ) == regs.reg_rdi
                    })
                    &&& (!old(self).spec_assign_ok(regs.reg_rdi as int) ==> rax == u64::MAX)
                    &&& (rax == u64::MAX ==> !old(self).spec_assign_ok(regs.reg_rdi as int)
                        || !final(self).spec_has_free_page())
                }
            },
            regs.reg_intno == INT_SYS_EXIT ==> {
                &&& action is Reschedule
                &&& final(self).processes@ == old(self).processes@.update(
                    old(self).current as int,
                    Proc {
                        p_registers: *regs,
                        p_state: P_FREE,
                        ..old(self).processes@[old(self).current as int]
                    },
                )
            },
            // the mapping query returns the translation of the address in
            // rdi through the registers: rax the physical address, rdx
            // the page number, rcx the permissions
            regs.reg_intno == INT_SYS_MAPPING ==> {
                &&& action is Resume
                &&& {
                    let root = old(self).processes@[old(self).current as int].p_pagetable as int;
                    let va = regs.reg_rdi as usize as u64;
                    let r = final(self).processes@[old(self).current as int].p_registers;
                    &&& r.reg_rax == (if old(self).spec_mapped(root, va) {
                        old(self).spec_pa(root, va)
                    } else {
                        u64::MAX as int
                    })
                    &&& r.reg_rcx == (if old(self).spec_mapped(root, va) {
                        old(self).spec_perm(root, va)
                    } else {
                        0u64
                    })
                }
            },
            regs.reg_intno == INT_SYS_BRK || regs.reg_intno == INT_SYS_SBRK ==> {
                &&& action is Resume
                &&& final(self).processes@[old(self).current as int].p_registers.reg_rax == 0
            },
            regs.reg_intno == INT_SYS_PANIC ==> action is Fatal,
            // fault containment: a user-mode page fault breaks only the
            // faulting process; a kernel-mode fault halts the machine
            regs.reg_intno == INT_PAGEFAULT && regs.reg_err & PFERR_USER == 0 ==> {
                &&& action is Fatal
            },
            regs.reg_intno == INT_PAGEFAULT && regs.reg_err & PFERR_USER != 0 ==> {
                &&& action is Reschedule
                &&& final(self).processes@ == old(self).processes@.update(
                    old(self).current as int,
                    Proc {
                        p_registers: *regs,
                        p_state: P_BROKEN,
                        ..old(self).processes@[old(self).current as int]
                    },
                )
            },
            regs.reg_intno == INT_SYS_MEM_TOG ==> {
                &&& action is Resume
                &&& (regs.reg_rdi == 0 ==> final(self).disp_global == (
                if old(self).disp_global == 0 {
                    1u8
                } else {
                    0u8
                }))
                &&& (regs.reg_rdi != 0 ==> final(self).processes@[old(self).current
                    as int].display_status == (if old(self).processes@[old(self).current
                    as int].display_status == 0 {
                    1u8
                } else {
                    0u8
                }))
            },
            // fork: the parent gets the child pid (or the failure value),
            // and the new child starts Runnable with the parent's saved
            // registers and a zero return value
            regs.reg_intno == INT_SYS_FORK ==> {
                &&& action is Resume
                &&& {
                    let rax = final(self).processes@[old(self).current as int].p_registers.reg_rax;
                    &&& (rax == u64::MAX || 1 <= rax < NPROC)
                    &&& (rax == u64::MAX ==> (forall|p: int|
                        1 <= p < NPROC ==> (#[trigger] old(self).processes@[p]).p_state
                            != P_FREE) || !final(self).spec_has_free_page())
                    &&& (rax < NPROC as u64 ==> {
                        &&& rax != old(self).current
                        &&& final(self).processes@[rax as int].p_state == P_RUNNABLE
                        &&& final(self).processes@[rax as int].p_registers == spec_regs_with_rax(
                            *regs,
                            0,
                        )
                    })
                }
            },
            // every process but the current one (and, for fork, the
            // child) is untouched
            forall|p: int|
                0 <= p < NPROC && p != old(self).current && regs.reg_intno != INT_SYS_FORK
                    ==> final(self).processes@[p] == old(self).processes@[p],
            // any other trap breaks the process and reschedules
            !(regs.reg_intno == INT_TIMER || regs.reg_intno == INT_SYS_GETPID
                || regs.reg_intno == INT_SYS_YIELD || regs.reg_intno == INT_SYS_PAGE_ALLOC
                || regs.reg_intno == INT_SYS_FORK || regs.reg_intno == INT_SYS_EXIT
                || regs.reg_intno == INT_SYS_MAPPING || regs.reg_intno == INT_SYS_MEM_TOG
                || regs.reg_intno == INT_SYS_BRK || regs.reg_intno == INT_SYS_SBRK
                || regs.reg_intno == INT_SYS_PANIC || regs.reg_intno == INT_PAGEFAULT) ==> {
                &&& action is Reschedule
                &&& final(self).processes@ == old(self).processes@.update(
                    old(self).current as int,
                    Proc {
                        p_registers: *regs,
                        p_state: P_BROKEN,
                        ..old(self).processes@[old(self).current as int]
                    },
                )
            },
    {
        let cur = self.current;
        self.processes[cur].p_registers = *regs;
        proof {
            assert(self.processes@ =~= old(self).processes@.update(
                cur as int,
                Proc { p_registers: *regs, ..old(self).processes@[cur as int] },
            ));
        }
        let intno = regs.reg_intno;
        if intno == INT_TIMER {
            self.ticks = self.ticks.wrapping_add(1);
            proof {
                let t = old(self).ticks;
                if t == u32::MAX {
                    assert((t + 1) as u32 == 0) by (bit_vector)
                        requires
                            t == 0xFFFF_FFFFu32,
                    ;
                }
                assert(self.ticks == ((old(self).ticks + 1) as u32));
            }
            return TrapAction::Reschedule;
        }
        if intno == INT_SYS_GETPID {
            self.processes[cur].p_registers.reg_rax = cur as u64;
            proof {
                assert(self.processes@ =~= old(self).processes@.update(
                    cur as int,
                    Proc {
                        p_registers: spec_regs_with_rax(*regs, cur as u64),
                        ..old(self).processes@[cur as int]
                    },
                ));
            }
            return TrapAction::Resume;
        }
        if intno == INT_SYS_YIELD {
            return TrapAction::Reschedule;
        }
        if intno == INT_SYS_PAGE_ALLOC {
            let addr64 = regs.reg_rdi;
            if addr64 % 4096 != 0 || addr64 >= MEMSIZE_PHYSICAL as u64 {
                self.processes[cur].p_registers.reg_rax = u64::MAX;
                return TrapAction::Resume;
            }
            let addr = addr64 as usize;
            let r = self.assign_physical_page(addr, cur as i8);
            if r < 0 {
                self.processes[cur].p_registers.reg_rax = u64::MAX;
                return TrapAction::Resume;
            }
            let root = self.processes[cur].p_pagetable;
            proof {
                assert(7i32 & 1i32 == 1) by (bit_vector);
                assert(addr % 4096 == 0 && addr + 4096 <= MEMSIZE_PHYSICAL) by (nonlinear_arith)
                    requires
                        addr % 4096 == 0,
                        addr < 0x200000,
                ;
            }
            let rm = self.virtual_memory_map(root, addr, addr, PAGESIZE, 7);
            if rm < 0 {
                self.processes[cur].p_registers.reg_rax = u64::MAX;
                return TrapAction::Resume;
            }
            proof {
                assert(crate::vm::spec_page_va(addr as int, 0) == addr as u64);
                assert(self.spec_mapped(root as int, addr as u64));
                assert(addr as u64 == regs.reg_rdi);
            }
            self.processes[cur].p_registers.reg_rax = 0;
            return TrapAction::Resume;
        }
        if intno == INT_SYS_FORK {
            let ghost s_mid = *self;
            let child = self.syscall_fork(regs);
            proof {
                // the snapshot copy changed only the current slot's
                // registers, so slot states agree with the entry state
                assert(forall|p: int|
                    0 <= p < NPROC ==> (#[trigger] s_mid.processes@[p]).p_state == old(
                        self,
                    ).processes@[p].p_state);
            }
            if child >= 0 {
                self.processes[cur].p_registers.reg_rax = child as u64;
            } else {
                let ghost s_fork = *self;
                self.processes[cur].p_registers.reg_rax = u64::MAX;
                proof {
                    // writing the return value touches no page ownership
                    assert(self.pageinfo@ == s_fork.pageinfo@);
                    if forall|p: int|
                        1 <= p < NPROC ==> (#[trigger] s_mid.processes@[p]).p_state != P_FREE {
                        assert forall|p: int|
                            1 <= p < NPROC implies (#[trigger] old(self).processes@[p]).p_state
                            != P_FREE by {
                            assert(s_mid.processes@[p].p_state != P_FREE);
                        }
                    } else {
                        assert(!s_fork.spec_has_free_page());
                        assert forall|pn: int|
                            0 <= pn < NPAGES && Kernel::spec_page_eligible(pn * 4096) implies (
                        #[trigger] self.pageinfo@[pn]).refcount != 0 by {
                            assert(s_fork.pageinfo@[pn].refcount != 0);
                        }
                        assert(!self.spec_has_free_page());
                    }
                }
            }
            return TrapAction::Resume;
        }
        if intno == INT_SYS_EXIT {
            self.processes[cur].p_state = P_FREE;
            proof {
                assert(self.processes@ =~= old(self).processes@.update(
                    cur as int,
                    Proc {
                        p_registers: *regs,
                        p_state: P_FREE,
                        ..old(self).processes@[cur as int]
                    },
                ));
            }
            return TrapAction::Reschedule;
        }
        if intno == INT_SYS_MAPPING {
            let va = regs.reg_rdi as usize;
            let root = self.processes[cur].p_pagetable;
            let vam = self.virtual_memory_lookup(root, va);
            self.processes[cur].p_registers.reg_rax = vam.pa;
            self.processes[cur].p_registers.reg_rcx = vam.perm as u64;
            self.processes[cur].p_registers.reg_rdx = vam.pn as u64;
            return TrapAction::Resume;
        }
        if intno == INT_SYS_MEM_TOG {
            if regs.reg_rdi == 0 {
                self.disp_global = if self.disp_global == 0 {
                    1
                } else {
                    0
                };
            } else {
                let ds = self.processes[cur].display_status;
                self.processes[cur].display_status = if ds == 0 {
                    1
                } else {
                    0
                };
            }
            return TrapAction::Resume;
        }
        if intno == INT_SYS_BRK || intno == INT_SYS_SBRK {
            // the application heap is not managed by this kernel
            self.processes[cur].p_registers.reg_rax = 0;
            return TrapAction::Resume;
        }
        if intno == INT_SYS_PANIC {
            return TrapAction::Fatal;
        }
        if intno == INT_PAGEFAULT {
            if regs.reg_err & PFERR_USER == 0 {
                // a fault while the kernel was executing cannot be
                // recovered locally
                return TrapAction::Fatal;
            }
            self.processes[cur].p_state = P_BROKEN;
            proof {
                assert(self.processes@ =~= old(self).processes@.update(
                    cur as int,
                    Proc {
                        p_registers: *regs,
                        p_state: P_BROKEN,
                        ..old(self).processes@[cur as int]
                    },
                ));
            }
            return TrapAction::Reschedule;
        }
        self.processes[cur].p_state = P_BROKEN;
        proof {
            assert(self.processes@ =~= old(self).processes@.update(
                cur as int,
                Proc {
                    p_registers: *regs,
                    p_state: P_BROKEN,
                    ..old(self).processes@[cur as int]
                },
            ));
        }
        TrapAction::Reschedule
    }
}

/// The console cell value for byte `b` shown with `color`: the attribute
/// byte above the character byte.
pub open spec fn spec_console_cell(color: i32, b: u8) -> u16 {
    ((color as u16) & 0xFF00) | (b as u16)
}

// The boot command words the kernel entry recognizes.

/// "malloc"
pub open spec fn spec_cmd_malloc(s: Seq<u8>) -> bool {
    s.len() == 6 && s[0] == 'm' as u8 && s[1] == 'a' as u8 && s[2] == 'l' as u8 && s[3] == 'l'
        as u8 && s[4] == 'o' as u8 && s[5] == 'c' as u8
}

/// "alloctests"
pub open spec fn spec_cmd_alloctests(s: Seq<u8>) -> bool {
    s.len() == 10 && s[0] == 'a' as u8 && s[1] == 'l' as u8 && s[2] == 'l' as u8 && s[3] == 'o'
        as u8 && s[4] == 'c' as u8 && s[5] == 't' as u8 && s[6] == 'e' as u8 && s[7] == 's' as u8
        && s[8] == 't' as u8 && s[9] == 's' as u8
}

/// "test"
pub open spec fn spec_cmd_test(s: Seq<u8>) -> bool {
    s.len() == 4 && s[0] == 't' as u8 && s[1] == 'e' as u8 && s[2] == 's' as u8 && s[3] == 't'
        as u8
}

/// "test2"
pub open spec fn spec_cmd_test2(s: Seq<u8>) -> bool {
    s.len() == 5 && s[0] == 't' as u8 && s[1] == 'e' as u8 && s[2] == 's' as u8 && s[3] == 't'
        as u8 && s[4] == '2' as u8
}

impl Kernel {
    /// Write `text` onto the console at cell position `cpos` with the
    /// given color attribute, and move the cursor past it.  Returns the
    /// new cursor position.
    #[verifier::loop_isolation(false)]
    pub fn console_printf(&mut self, cpos: i32, color: i32, text: &Vec<u8>) -> (r: i32)
        requires
            old(self).wf(),
            0 <= cpos,
            cpos + text@.len() <= 2000,
        ensures
            final(self).wf(),
            r == cpos + text@.len(),
            final(self).cursorpos == r,
            forall|i: int|
                0 <= i < text@.len() ==> final(self).console@[cpos + i] == spec_console_cell(
                    color,
                    #[trigger] text@[i],
                ),
            forall|i: int|
                0 <= i < 2000 && !(cpos <= i < cpos + text@.len()) ==> final(self).console@[i]
                    == old(self).console@[i],
            final(self).same_vm(*old(self)),
            final(self).same_mem(*old(self)),
            final(self).same_pageinfo(*old(self)),
            final(self).same_procs(*old(self)),
            final(self).disp_global == old(self).disp_global,
            final(self).kernel_pagetable == old(self).kernel_pagetable,
    {
        let n: usize = text.len();
        let mut i: usize = 0;
        while i < n
            invariant
                self.wf(),
                i <= n,
                self.cursorpos == old(self).cursorpos,
                forall|j: int|
                    0 <= j < i ==> self.console@[cpos + j] == spec_console_cell(
                        color,
                        #[trigger] text@[j],
                    ),
                forall|j: int|
                    0 <= j < 2000 && !(cpos <= j < cpos + i) ==> self.console@[j] == old(
                        self,
                    ).console@[j],
                self.same_vm(*old(self)),
                self.same_mem(*old(self)),
                self.same_pageinfo(*old(self)),
                self.same_procs(*old(self)),
                self.disp_global == old(self).disp_global,
                self.kernel_pagetable == old(self).kernel_pagetable,
            decreases n - i,
        {
            let cell: u16 = ((color as u16) & 0xFF00) | (text[i] as u16);
            self.console[cpos as usize + i] = cell;
            i = i + 1;
        }
        let r = cpos + n as i32;
        self.cursorpos = r;
        r
    }

    /// The kernel entry point, invoked once by the boot loader with the
    /// optional command string.  Without a command the default program
    /// set fills process slots 1 through 4; a command selects one of the
    /// named workloads instead.  Returns 0 when every requested process
    /// was set up (failures leave the remaining slots free).
    pub fn kernel(&mut self, command: Option<&Vec<u8>>) -> (r: i32)
        requires
            old(self).wf(),
        ensures
            final(self).wf(),
            r == 0 || r == -1,
            r == -1 ==> !final(self).spec_has_free_page(),
            command is None && r == 0 ==> forall|p: int|
                1 <= p <= 4 ==> (#[trigger] final(self).processes@[p]).p_state == P_RUNNABLE,
            command matches Some(cmd) && r == 0 && !spec_cmd_test2(cmd@) ==> final(self).processes@[1].p_state == P_RUNNABLE,
            command matches Some(cmd) && r == 0 && spec_cmd_test2(cmd@) ==> final(self).processes@[1].p_state == P_RUNNABLE && final(self).processes@[2].p_state
                == P_RUNNABLE,
            // which image each command loads, read back through the
            // identity byte the images carry just past their entry point
            command matches Some(cmd) && r == 0 && spec_cmd_malloc(cmd@) ==> final(self).spec_vm_read(
                final(self).processes@[1].p_pagetable as int,
                (PROGRAM_ENTRY + 2) as u64,
            ) == 1,
            command matches Some(cmd) && r == 0 && spec_cmd_alloctests(cmd@) ==> final(self).spec_vm_read(
                final(self).processes@[1].p_pagetable as int,
                (PROGRAM_ENTRY + 2) as u64,
            ) == 2,
            command matches Some(cmd) && r == 0 && spec_cmd_test(cmd@) ==> final(self).spec_vm_read(
                final(self).processes@[1].p_pagetable as int,
                (PROGRAM_ENTRY + 2) as u64,
            ) == 3,
            command matches Some(cmd) && r == 0 && spec_cmd_test2(cmd@) ==> final(self).spec_vm_read(
                final(self).processes@[2].p_pagetable as int,
                (PROGRAM_ENTRY + 2) as u64,
            ) == 3,
            command matches Some(cmd) && r == 0 && !spec_cmd_malloc(cmd@) && !spec_cmd_alloctests(
                cmd@,
            ) && !spec_cmd_test(cmd@) && !spec_cmd_test2(cmd@) ==> final(self).spec_vm_read(
                final(self).processes@[1].p_pagetable as int,
                (PROGRAM_ENTRY + 2) as u64,
            ) == 0,
            command is None && r == 0 ==> final(self).spec_vm_read(
                final(self).processes@[4].p_pagetable as int,
                (PROGRAM_ENTRY + 2) as u64,
            ) == 3,
    {
        match command {
            None => {
                // creation is fail-fast: the first slot that cannot be
                // set up aborts the boot
                let r1 = self.process_setup(1, 0);
                if r1 != 0 {
                    return -1;
                }
                let r2 = self.process_setup(2, 1);
                if r2 != 0 {
                    return -1;
                }
                let r3 = self.process_setup(3, 2);
                if r3 != 0 {
                    return -1;
                }
                let r4 = self.process_setup(4, 3);
                if r4 != 0 {
                    return -1;
                }
                0
            },
            Some(cmd) => {
                if Self::cmd_is_malloc(cmd) {
                    self.process_setup(1, 1)
                } else if Self::cmd_is_alloctests(cmd) {
                    self.process_setup(1, 2)
                } else if Self::cmd_is_test(cmd) {
                    self.process_setup(1, 3)
                } else if Self::cmd_is_test2(cmd) {
                    let r1 = self.process_setup(1, 3);
                    if r1 != 0 {
                        return -1;
                    }
                    self.process_setup(2, 3)
                } else {
                    self.process_setup(1, 0)
                }
            },
        }
    }

    /// Whether the command bytes read "malloc".
    pub fn cmd_is_malloc(cmd: &Vec<u8>) -> (r: bool)
        ensures
            r == spec_cmd_malloc(cmd@),
    {
        cmd.len() == 6 && cmd[0] == 'm' as u8 && cmd[1] == 'a' as u8 && cmd[2] == 'l' as u8
            && cmd[3] == 'l' as u8 && cmd[4] == 'o' as u8 && cmd[5] == 'c' as u8
    }

    /// Whether the command bytes read "alloctests".
    pub fn cmd_is_alloctests(cmd: &Vec<u8>) -> (r: bool)
        ensures
            r == spec_cmd_alloctests(cmd@),
    {
        cmd.len() == 10 && cmd[0] == 'a' as u8 && cmd[1] == 'l' as u8 && cmd[2] == 'l' as u8
            && cmd[3] == 'o' as u8 && cmd[4] == 'c' as u8 && cmd[5] == 't' as u8 && cmd[6] == 'e'
            as u8 && cmd[7] == 's' as u8 && cmd[8] == 't' as u8 && cmd[9] == 's' as u8
    }

    /// Whether the command bytes read "test".
    pub fn cmd_is_test(cmd: &Vec<u8>) -> (r: bool)
        ensures
            r == spec_cmd_test(cmd@),
    {
        cmd.len() == 4 && cmd[0] == 't' as u8 && cmd[1] == 'e' as u8 && cmd[2] == 's' as u8
            && cmd[3] == 't' as u8
    }

    /// Whether the command bytes read "test2".
    pub fn cmd_is_test2(cmd: &Vec<u8>) -> (r: bool)
        ensures
            r == spec_cmd_test2(cmd@),
    {
        cmd.len() == 5 && cmd[0] == 't' as u8 && cmd[1] == 'e' as u8 && cmd[2] == 's' as u8
            && cmd[3] == 't' as u8 && cmd[4] == '2' as u8
    }
}


} // verus!
