//! The process table lifecycle and the program loader: resetting a
//! process slot, materializing a program image's segments in its address
//! space, setting up a fresh process with its stack, and fork.
//!
//! Program images are ELF64.  A small set of compiled-in images stands in
//! for the applications shipped with the kernel; each is a complete image
//! that the loader decodes byte by byte like any other.

use vstd::prelude::*;
use crate::kernel::{
    Kernel, Proc, PhysicalPageInfo, NPAGES, NPROC, MEMSIZE_PHYSICAL, MEMSIZE_VIRTUAL,
    PROC_START_ADDR, PROC_SIZE, P_FREE, P_RUNNABLE, P_BLOCKED, spec_regs_with_rax,
};
use crate::x86_64::{x86_64_registers, PAGESIZE, PTE_U};
use crate::vm::{spec_page_va, spec_byte_va};
use crate::elf::{
    ElfProgram, parse_elf_header, parse_elf_program, push_le_u16, push_le_u32, push_le_u64,
    spec_le_u16, spec_le_u32, spec_le_u64, ELF_MAGIC, ELF_PTYPE_LOAD, ELF_PFLAG_WRITE,
    ELF_PROGRAM_SIZE,
};

verus! {

/// Number of compiled-in program images.
pub const NPROGRAMS: usize = 4;

/// The entry point shared by the compiled-in images.
pub const PROGRAM_ENTRY: u64 = 0x100000;

/// Build compiled-in program image number `program_number`: a complete
/// ELF64 executable with one loadable segment at `PROGRAM_ENTRY`.  The
/// first two images carry a writable data segment, the last two a
/// read-only code segment.  Returns `None` exactly when the number is out
/// of range.
#[verifier::rlimit(100)]
pub fn program_image(program_number: usize) -> (r: Option<Vec<u8>>)
    ensures
        r is Some <==> program_number < NPROGRAMS,
        r matches Some(img) ==> {
            &&& img@.len() == 128
            &&& spec_le_u32(img@, 0) == ELF_MAGIC
            &&& spec_le_u64(img@, 0x18) == PROGRAM_ENTRY
            &&& spec_le_u64(img@, 0x20) == 64
            &&& spec_le_u16(img@, 0x38) == 1
            &&& spec_le_u32(img@, 64) == ELF_PTYPE_LOAD
            &&& spec_le_u32(img@, 68) == (if program_number < 2 {
                6int
            } else {
                5int
            })
            &&& spec_le_u64(img@, 72) == 120
            &&& spec_le_u64(img@, 80) == PROGRAM_ENTRY
            &&& spec_le_u64(img@, 96) == 8
            &&& spec_le_u64(img@, 104) == 16
            &&& img@[122] == program_number as u8
        },
{
    if program_number >= NPROGRAMS {
        return None;
    }
    let mut img: Vec<u8> = Vec::new();
    // executable header
    push_le_u32(&mut img, ELF_MAGIC);
    push_le_u32(&mut img, 0);  // ident padding
    push_le_u32(&mut img, 0);
    push_le_u32(&mut img, 0);
    push_le_u16(&mut img, 2);  // e_type: executable
    push_le_u16(&mut img, 0x3E);  // e_machine: x86_64
    push_le_u32(&mut img, 1);  // e_version
    push_le_u64(&mut img, PROGRAM_ENTRY);  // e_entry
    push_le_u64(&mut img, 64);  // e_phoff
    push_le_u64(&mut img, 0);  // e_shoff
    push_le_u32(&mut img, 0);  // e_flags
    push_le_u16(&mut img, 64);  // e_ehsize
    push_le_u16(&mut img, 56);  // e_phentsize
    push_le_u16(&mut img, 1);  // e_phnum
    push_le_u16(&mut img, 64);  // e_shentsize
    push_le_u16(&mut img, 0);  // e_shnum
    push_le_u16(&mut img, 0);  // e_shstrndx
    // one program header
    push_le_u32(&mut img, ELF_PTYPE_LOAD);  // p_type
    if program_number < 2 {
        push_le_u32(&mut img, 6);  // p_flags: read + write
    } else {
        push_le_u32(&mut img, 5);  // p_flags: read + execute
    }
    push_le_u64(&mut img, 120);  // p_offset
    push_le_u64(&mut img, PROGRAM_ENTRY);  // p_va
    push_le_u64(&mut img, 0);  // p_pa
    push_le_u64(&mut img, 8);  // p_filesz
    push_le_u64(&mut img, 16);  // p_memsz
    push_le_u64(&mut img, 0x1000);  // p_align
    // segment data: a tight loop, then the program's own number
    img.push(0xEB);
    img.push(0xFE);
    img.push(program_number as u8);
    img.push(0);
    img.push(0);
    img.push(0);
    img.push(0);
    img.push(0);
    Some(img)
}

impl Kernel {
    /// Reset process slot `pid` to its baseline: registers zeroed except
    /// an enabled interrupt flag, state Blocked, the shared kernel page
    /// table as its address space.  `flags` is accepted for the console
    /// display code and ignored by the core.
    pub fn process_init(&mut self, pid: usize, flags: usize)
        requires
            old(self).wf(),
            pid < NPROC,
        ensures
            final(self).wf(),
            final(self).processes@ == old(self).processes@.update(
                pid as int,
                final(self).processes@[pid as int],
            ),
            final(self).processes@[pid as int].p_pid == pid,
            final(self).processes@[pid as int].p_state == P_BLOCKED,
            final(self).processes@[pid as int].p_pagetable == old(self).kernel_pagetable,
            final(self).processes@[pid as int].p_registers.reg_rflags == 0x200,
            final(self).processes@[pid as int].p_registers.reg_rip == 0,
            final(self).processes@[pid as int].p_registers.reg_rax == 0,
            final(self).current == old(self).current,
            final(self).ticks == old(self).ticks,
            final(self).same_vm(*old(self)),
            final(self).same_mem(*old(self)),
            final(self).same_pageinfo(*old(self)),
            final(self).same_console(*old(self)),
    {
        let mut regs = x86_64_registers::default();
        regs.reg_rflags = 0x200;  // interrupts enabled
        let kpt = self.kernel_pagetable;
        self.processes[pid] = Proc {
            p_pid: pid as i32,
            p_registers: regs,
            p_state: P_BLOCKED,
            p_pagetable: kpt,
            display_status: 0,
        };
    }

    /// Copy one whole physical page frame onto another.
    fn copy_physical_page(&mut self, src_pn: usize, dst_pn: usize)
        requires
            old(self).wf(),
            src_pn < NPAGES,
            dst_pn < NPAGES,
        ensures
            final(self).wf(),
            final(self).same_vm(*old(self)),
            final(self).same_pageinfo(*old(self)),
            final(self).same_procs(*old(self)),
            final(self).same_console(*old(self)),
            final(self).mem@.len() == old(self).mem@.len(),
    {
        let mut off: usize = 0;
        while off < PAGESIZE
            invariant
                self.wf(),
                src_pn < NPAGES,
                dst_pn < NPAGES,
                off <= PAGESIZE,
                self.same_vm(*old(self)),
                self.same_pageinfo(*old(self)),
                self.same_procs(*old(self)),
                self.same_console(*old(self)),
                self.mem@.len() == old(self).mem@.len(),
            decreases PAGESIZE - off,
        {
            let b = self.mem[src_pn * PAGESIZE + off];
            self.mem[dst_pn * PAGESIZE + off] = b;
            off = off + 1;
        }
    }

    /// Every address in `[lo, hi)` is mapped under `root` with permission
    /// `perm`, to a live physical page.
    pub open spec fn seg_pages_ok(self, root: int, lo: int, hi: int, perm: int) -> bool {
        forall|w: u64|
            #![trigger self.spec_mapped(root, w)]
            lo <= w < hi ==> {
                &&& self.spec_mapped(root, w)
                &&& self.spec_perm(root, w) == perm
                &&& 0 <= self.spec_pn(root, w) < NPAGES
                &&& self.pageinfo@[self.spec_pn(root, w)].refcount != 0
            }
    }

    /// Addresses of distinct pages in `[lo, hi)` sit on distinct physical
    /// pages under `root`.
    pub open spec fn seg_pages_distinct(self, root: int, lo: int, hi: int) -> bool {
        forall|w1: u64, w2: u64|
            #![trigger self.spec_pn(root, w1), self.spec_pn(root, w2)]
            lo <= w1 < hi && lo <= w2 < hi && w1 >> 12 != w2 >> 12 ==> self.spec_pn(root, w1)
                != self.spec_pn(root, w2)
    }

    /// Every frame backing `[lo, hi)` under `root` is recorded as owned
    /// by `owner`.
    pub open spec fn seg_pages_owned(self, root: int, lo: int, hi: int, owner: int) -> bool {
        forall|w: u64|
            lo <= w < hi ==> self.pageinfo@[#[trigger] self.spec_pn(root, w)].owner == owner
    }

    /// Page-range facts carry over to a state with the same tables and
    /// ownership records.
    pub proof fn lemma_seg_pages_same_vm(
        k1: Kernel,
        k2: Kernel,
        root: int,
        lo: int,
        hi: int,
        perm: int,
    )
        requires
            k1.seg_pages_ok(root, lo, hi, perm),
            k2.tables@ == k1.tables@,
            k2.pageinfo@ == k1.pageinfo@,
        ensures
            k2.seg_pages_ok(root, lo, hi, perm),
    {
        assert forall|w: u64| lo <= w < hi implies {
            &&& k2.spec_mapped(root, w)
            &&& k2.spec_perm(root, w) == perm
            &&& 0 <= k2.spec_pn(root, w) < NPAGES
            &&& k2.pageinfo@[k2.spec_pn(root, w)].refcount != 0
        } by {
            assert(k1.spec_mapped(root, w));
            Kernel::lemma_lookup_same_vm(k1, k2, root, w);
        }
    }

    /// A page-range fact survives an allocation step followed by a
    /// single-page map call whose window lies past the range: the
    /// allocation changes no translation, and the map call leaves every
    /// aligned address outside its window alone.
    proof fn lemma_seg_ok_outside_window(
        s0: Kernel,
        s1: Kernel,
        sx: Kernel,
        root: int,
        lo: int,
        hi: int,
        wa: int,
    )
        requires
            s0.wf(),
            0 <= root < NPAGES,
            s0.lvl(root) == 4,
            lo % 4096 == 0,
            0 <= lo,
            hi <= wa,
            wa + 4096 <= 0x1_0000_0000_0000,
            s0.seg_pages_ok(root, lo, hi, 7),
            s1.tables@ == s0.tables@,
            s1.pageinfo_monotone(s0),
            sx.pageinfo_monotone(s1),
            forall|w: u64|
                #![trigger sx.spec_mapped(root, w)]
                #![trigger sx.spec_leaf(root, w)]
                w % 4096 == 0 && w < 0x1_0000_0000_0000 && !(wa <= w < wa + 4096) ==> {
                    &&& sx.spec_mapped(root, w) == s1.spec_mapped(root, w)
                    &&& (s1.spec_mapped(root, w) ==> sx.spec_leaf(root, w) == s1.spec_leaf(
                        root,
                        w,
                    ))
                },
        ensures
            sx.seg_pages_ok(root, lo, hi, 7),
    {
        assert forall|w: u64|
            lo <= w < hi implies {
            &&& sx.spec_mapped(root, w)
            &&& sx.spec_perm(root, w) == 7
            &&& 0 <= sx.spec_pn(root, w) < NPAGES
            &&& sx.pageinfo@[sx.spec_pn(root, w)].refcount != 0
        } by {
            let pw = (w >> 12) << 12;
            assert(s0.spec_mapped(root, w));
            assert(s0.pageinfo@[s0.spec_pn(root, w)].refcount != 0);
            Kernel::lemma_page_start(w, lo as u64);
            Kernel::lemma_lookup_same_vm(s0, s1, root, w);
            Kernel::lemma_lookup_same_vm(s0, s1, root, pw);
            s1.lemma_same_page_lookup(root, w, pw);
            s0.lemma_same_page_lookup(root, w, pw);
            assert(sx.spec_mapped(root, pw) == s1.spec_mapped(root, pw) && (s1.spec_mapped(
                root,
                pw,
            ) ==> sx.spec_leaf(root, pw) == s1.spec_leaf(root, pw)));
            sx.lemma_same_page_lookup(root, w, pw);
            assert(s1.pageinfo@[s0.spec_pn(root, w)] == s0.pageinfo@[s0.spec_pn(root, w)]);
            assert(sx.pageinfo@[s0.spec_pn(root, w)] == s1.pageinfo@[s0.spec_pn(root, w)]);
        }
    }

    /// Ownership of a page range carries over to a state with the same
    /// tables and ownership records.
    proof fn lemma_seg_owned_same_vm(
        k1: Kernel,
        k2: Kernel,
        root: int,
        lo: int,
        hi: int,
        owner: int,
    )
        requires
            k1.seg_pages_owned(root, lo, hi, owner),
            k2.tables@ == k1.tables@,
            k2.pageinfo@ == k1.pageinfo@,
        ensures
            k2.seg_pages_owned(root, lo, hi, owner),
    {
        assert forall|w: u64|
            lo <= w < hi implies k2.pageinfo@[#[trigger] k2.spec_pn(root, w)].owner
            == owner by {
            Kernel::lemma_lookup_same_vm(k1, k2, root, w);
            assert(k1.pageinfo@[k1.spec_pn(root, w)].owner == owner);
        }
    }

    /// Distinctness of the frames behind a page range carries over to a
    /// state with the same tables.
    proof fn lemma_seg_distinct_same_vm(k1: Kernel, k2: Kernel, root: int, lo: int, hi: int)
        requires
            k1.seg_pages_distinct(root, lo, hi),
            k2.tables@ == k1.tables@,
        ensures
            k2.seg_pages_distinct(root, lo, hi),
    {
        assert forall|w1: u64, w2: u64|
            lo <= w1 < hi && lo <= w2 < hi && w1 >> 12 != w2 >> 12 implies #[trigger] k2.spec_pn(
            root,
            w1,
        ) != #[trigger] k2.spec_pn(root, w2) by {
            Kernel::lemma_lookup_same_vm(k1, k2, root, w1);
            Kernel::lemma_lookup_same_vm(k1, k2, root, w2);
            assert(k1.spec_pn(root, w1) != k1.spec_pn(root, w2));
        }
    }

    /// Ownership and distinctness survive an operation that moves no
    /// frame of the range and only adds owners elsewhere.
    proof fn lemma_seg_records_preserved(
        k1: Kernel,
        k2: Kernel,
        root: int,
        lo: int,
        hi: int,
        owner: int,
        perm: int,
    )
        requires
            k1.seg_pages_ok(root, lo, hi, perm),
            k1.seg_pages_owned(root, lo, hi, owner),
            k1.seg_pages_distinct(root, lo, hi),
            k2.pageinfo_monotone(k1),
            k1.pageinfo@.len() == NPAGES,
            forall|w: u64|
                lo <= w < hi ==> #[trigger] k2.spec_pn(root, w) == k1.spec_pn(root, w),
        ensures
            k2.seg_pages_owned(root, lo, hi, owner),
            k2.seg_pages_distinct(root, lo, hi),
    {
        assert forall|w: u64|
            lo <= w < hi implies k2.pageinfo@[#[trigger] k2.spec_pn(root, w)].owner
            == owner by {
            assert(k1.spec_mapped(root, w));
            assert(k1.pageinfo@[k1.spec_pn(root, w)].refcount != 0);
            assert(k2.pageinfo@[k1.spec_pn(root, w)] == k1.pageinfo@[k1.spec_pn(root, w)]);
            assert(k1.pageinfo@[k1.spec_pn(root, w)].owner == owner);
        }
        assert forall|w1: u64, w2: u64|
            lo <= w1 < hi && lo <= w2 < hi && w1 >> 12 != w2 >> 12 implies #[trigger] k2.spec_pn(
            root,
            w1,
        ) != #[trigger] k2.spec_pn(root, w2) by {
            assert(k1.spec_pn(root, w1) != k1.spec_pn(root, w2));
        }
    }

    /// A narrower starting point keeps a page-range fact.
    pub proof fn lemma_seg_range_restrict(self, root: int, lo1: int, lo2: int, hi: int, perm: int)
        requires
            self.seg_pages_ok(root, lo1, hi, perm),
            lo1 <= lo2,
        ensures
            self.seg_pages_ok(root, lo2, hi, perm),
    {
        assert forall|w: u64| lo2 <= w < hi implies {
            &&& self.spec_mapped(root, w)
            &&& self.spec_perm(root, w) == perm
            &&& 0 <= self.spec_pn(root, w) < NPAGES
            &&& self.pageinfo@[self.spec_pn(root, w)].refcount != 0
        } by {
            assert(lo1 <= w);
            assert(self.spec_mapped(root, w));
        }
    }

    /// The loaded contents of a segment at `va`: bytes below `filesz` come
    /// from the image at `offset`, the rest up to `memsz` read zero.
    pub open spec fn seg_bytes_ok(
        self,
        root: int,
        va: int,
        offset: int,
        filesz: int,
        count: int,
        image: Seq<u8>,
    ) -> bool {
        forall|i: int|
            #![trigger spec_byte_va(va, i)]
            0 <= i < count ==> self.spec_vm_read(root, spec_byte_va(va, i)) == (if i < filesz {
                image[offset + i]
            } else {
                0
            })
    }

    /// Allocate a fresh physical page owned by `pid` for every page of
    /// `[va_lo, end_mem)` and map it writable and user-accessible under
    /// `root`.  Fails, leaving earlier pages in place, exactly when
    /// physical memory runs out.
    #[verifier::loop_isolation(false)]
    #[verifier::rlimit(100)]
    fn seg_alloc(&mut self, pid: usize, root: usize, va_lo: usize, end_mem: usize) -> (r: i32)
        requires
            old(self).wf(),
            1 <= pid < NPROC,
            root < NPAGES,
            old(self).lvl(root as int) == 4,
            va_lo % 4096 == 0,
            va_lo <= end_mem,
            end_mem + 4096 <= 0x1_0000_0000_0000,
            end_mem + 4096 <= usize::MAX,
        ensures
            final(self).wf(),
            final(self).lvl(root as int) == 4,
            final(self).same_procs(*old(self)),
            final(self).same_console(*old(self)),
            final(self).same_mem(*old(self)),
            final(self).pageinfo_monotone(*old(self)),
            final(self).levels_monotone(*old(self)),
            r == 0 || r == -1,
            r == -1 ==> !final(self).spec_has_free_page(),
            r == 0 ==> {
                &&& final(self).seg_pages_ok(root as int, va_lo as int, end_mem as int, 7)
                &&& final(self).seg_pages_distinct(root as int, va_lo as int, end_mem as int)
                &&& final(self).seg_pages_owned(root as int, va_lo as int, end_mem as int, pid as int)
            },
            // a failure rolls nothing back: the pages placed so far stay
            r == -1 ==> exists|a: int|
                va_lo <= a && #[trigger] final(self).seg_pages_ok(root as int, va_lo as int, a, 7),
    {
        let ghost rooti = root as int;
        let mut addr: usize = va_lo;
        while addr < end_mem
            invariant
                self.wf(),
                self.lvl(rooti) == 4,
                va_lo <= addr,
                addr % 4096 == 0,
                addr <= end_mem + 4095,
                self.same_procs(*old(self)),
                self.same_console(*old(self)),
                self.same_mem(*old(self)),
                self.pageinfo_monotone(*old(self)),
                self.levels_monotone(*old(self)),
                self.seg_pages_ok(rooti, va_lo as int, addr as int, 7),
                self.seg_pages_distinct(rooti, va_lo as int, addr as int),
                self.seg_pages_owned(rooti, va_lo as int, addr as int, pid as int),
            decreases end_mem + 4096 - addr,
        {
            let ghost s0 = *self;
            let pa = self.palloc(pid as i8);
            if pa < 0 {
                proof {
                    Kernel::lemma_seg_pages_same_vm(
                        s0,
                        *self,
                        rooti,
                        va_lo as int,
                        addr as int,
                        7,
                    );
                    assert(self.seg_pages_ok(rooti, va_lo as int, addr as int, 7));
                }
                return -1;
            }
            let ghost s1 = *self;
            let r = self.virtual_memory_map(root, addr, pa as usize, PAGESIZE, 7);
            if r < 0 {
                proof {
                    // even on failure the map call leaves every page
                    // outside its one-page window alone
                    Kernel::lemma_seg_ok_outside_window(
                        s0,
                        s1,
                        *self,
                        rooti,
                        va_lo as int,
                        addr as int,
                        addr as int,
                    );
                }
                return -1;
            }
            let ghost s2 = *self;
            proof {
                let ghost au = addr as u64;
                // the fresh page, through the single-page map call
                assert(7i32 & 1i32 == 1) by (bit_vector);
                assert(spec_page_va(addr as int, 0) == au);
                assert(s2.spec_mapped(rooti, au) && s2.spec_pn(rooti, au) == pa as int / 4096
                    && s2.spec_perm(rooti, au) == 7);
                assert(s1.pageinfo@[pa as int / 4096].refcount == 1);
                assert(s2.pageinfo@[pa as int / 4096].refcount != 0);
                assert(s0.pageinfo@[pa as int / 4096].refcount == 0);
                // every address of the new page shares its translation
                assert forall|w: u64| addr <= w < addr + 4096 implies {
                    &&& s2.spec_mapped(rooti, w)
                    &&& s2.spec_perm(rooti, w) == 7
                    &&& s2.spec_pn(rooti, w) == pa as int / 4096
                } by {
                    Kernel::lemma_within_page(w, au);
                    s2.lemma_same_page_lookup(rooti, w, au);
                }
                // earlier pages keep their translation: go through the
                // aligned page start, which the map call left alone
                assert forall|w: u64| va_lo <= w < addr implies {
                    &&& s2.spec_mapped(rooti, w)
                    &&& s2.spec_perm(rooti, w) == 7
                    &&& 0 <= s2.spec_pn(rooti, w) < NPAGES
                    &&& s2.spec_pn(rooti, w) == s0.spec_pn(rooti, w)
                    &&& s2.pageinfo@[s2.spec_pn(rooti, w)].refcount != 0
                } by {
                    let pw = (w >> 12) << 12;
                    assert(s0.spec_mapped(rooti, w));
                    Kernel::lemma_page_start(w, va_lo as u64);
                    Kernel::lemma_lookup_same_vm(s0, s1, rooti, w);
                    Kernel::lemma_lookup_same_vm(s0, s1, rooti, pw);
                    s1.lemma_same_page_lookup(rooti, w, pw);
                    s0.lemma_same_page_lookup(rooti, w, pw);
                    assert(s2.spec_mapped(rooti, pw) == s1.spec_mapped(rooti, pw) && (
                    s1.spec_mapped(rooti, pw) ==> s2.spec_leaf(rooti, pw) == s1.spec_leaf(
                        rooti,
                        pw,
                    )));
                    s2.lemma_same_page_lookup(rooti, w, pw);
                }
                assert(s2.seg_pages_ok(rooti, va_lo as int, addr + 4096, 7));
                // ownership: the fresh frame was claimed for the process,
                // frames placed earlier keep their record
                assert forall|w: u64| va_lo <= w < addr + 4096 implies s2.pageinfo@[
                    #[trigger] s2.spec_pn(rooti, w)].owner == pid as int by {
                    if w >= au {
                        Kernel::lemma_within_page(w, au);
                        s2.lemma_same_page_lookup(rooti, w, au);
                        assert(s1.pageinfo@[pa as int / 4096] == PhysicalPageInfo {
                            owner: pid as i8,
                            refcount: 1i8,
                        });
                        assert(s2.pageinfo@[pa as int / 4096] == s1.pageinfo@[pa as int / 4096]);
                    } else {
                        assert(s0.spec_mapped(rooti, w));
                        assert(s0.pageinfo@[s0.spec_pn(rooti, w)].owner == pid as int);
                        assert(s0.pageinfo@[s0.spec_pn(rooti, w)].refcount != 0);
                        assert(s1.pageinfo@[s0.spec_pn(rooti, w)] == s0.pageinfo@[s0.spec_pn(
                            rooti,
                            w,
                        )]);
                        assert(s2.pageinfo@[s0.spec_pn(rooti, w)] == s1.pageinfo@[s0.spec_pn(
                            rooti,
                            w,
                        )]);
                    }
                }
                assert(s2.seg_pages_owned(rooti, va_lo as int, addr + 4096, pid as int));
                // distinctness: the fresh frame was free, frames placed
                // earlier are live
                assert forall|w1: u64, w2: u64|
                    va_lo <= w1 < addr + 4096 && va_lo <= w2 < addr + 4096 && w1 >> 12 != w2
                        >> 12 implies s2.spec_pn(rooti, w1) != s2.spec_pn(rooti, w2) by {
                    if w1 < au && w2 < au {
                        assert(s0.spec_mapped(rooti, w1));
                        assert(s0.spec_mapped(rooti, w2));
                        assert(s0.spec_pn(rooti, w1) != s0.spec_pn(rooti, w2));
                    } else if w1 >= au && w2 >= au {
                        Kernel::lemma_within_page(w1, au);
                        Kernel::lemma_within_page(w2, au);
                    } else if w1 >= au {
                        Kernel::lemma_within_page(w1, au);
                        s2.lemma_same_page_lookup(rooti, w1, au);
                        assert(s0.spec_mapped(rooti, w2));
                        assert(s0.pageinfo@[s0.spec_pn(rooti, w2)].refcount != 0);
                    } else {
                        Kernel::lemma_within_page(w2, au);
                        s2.lemma_same_page_lookup(rooti, w2, au);
                        assert(s0.spec_mapped(rooti, w1));
                        assert(s0.pageinfo@[s0.spec_pn(rooti, w1)].refcount != 0);
                    }
                }
            }
            addr = addr + PAGESIZE;
        }
        0
    }

    /// Copy `filesz` bytes of the image at `offset` to virtual address
    /// `base` under `root` and zero the following `memsz - filesz` bytes.
    /// The pages backing `[base, base + memsz)` must be mapped writable
    /// and pairwise distinct.
    #[verifier::loop_isolation(false)]
    #[verifier::rlimit(100)]
    fn seg_fill(
        &mut self,
        root: usize,
        base: usize,
        filesz: usize,
        memsz: usize,
        offset: usize,
        image: &Vec<u8>,
    )
        requires
            old(self).wf(),
            root < NPAGES,
            old(self).lvl(root as int) == 4,
            filesz <= memsz,
            base + memsz <= usize::MAX,
            offset + filesz <= image@.len(),
            old(self).seg_pages_ok(root as int, base as int, base + memsz, 7),
            old(self).seg_pages_distinct(root as int, base as int, base + memsz),
        ensures
            final(self).wf(),
            final(self).same_vm(*old(self)),
            final(self).same_pageinfo(*old(self)),
            final(self).same_procs(*old(self)),
            final(self).same_console(*old(self)),
            final(self).mem@.len() == old(self).mem@.len(),
            final(self).seg_bytes_ok(
                root as int,
                base as int,
                offset as int,
                filesz as int,
                memsz as int,
                image@,
            ),
    {
        let ghost rooti = root as int;
        let ghost kc = *old(self);
        let _len: usize = image.len();
        let mut i: usize = 0;
        while i < memsz
            invariant
                self.wf(),
                self.lvl(rooti) == 4,
                i <= memsz,
                self.same_vm(kc),
                self.same_pageinfo(kc),
                self.same_procs(kc),
                self.same_console(kc),
                self.mem@.len() == kc.mem@.len(),
                self.seg_bytes_ok(
                    rooti,
                    base as int,
                    offset as int,
                    filesz as int,
                    i as int,
                    image@,
                ),
            decreases memsz - i,
        {
            let b: u8 = if i < filesz {
                image[offset + i]
            } else {
                0
            };
            let ghost s0 = *self;
            let ghost bva = spec_byte_va(base as int, i as int);
            proof {
                assert(bva == (base + i) as u64);
                Kernel::lemma_lookup_same_vm(kc, s0, rooti, bva);
                assert(kc.spec_mapped(rooti, bva) && kc.spec_perm(rooti, bva) == 7 && 0
                    <= kc.spec_pn(rooti, bva) < NPAGES);
                assert(7u64 & 2u64 != 0) by (bit_vector);
            }
            let ok = self.vm_write_byte(root, base + i, b);
            proof {
                let s2 = *self;
                assert(ok);
                assert(s2.mem@ == s0.mem@.update(s0.spec_pa(rooti, bva), b));
                // earlier bytes sit at other physical addresses
                assert forall|ii: int| 0 <= ii < i implies s2.spec_vm_read(
                    rooti,
                    #[trigger] spec_byte_va(base as int, ii),
                ) == (if ii < filesz {
                    image@[offset + ii]
                } else {
                    0
                }) by {
                    let bw = spec_byte_va(base as int, ii);
                    Kernel::lemma_lookup_same_vm(kc, s0, rooti, bw);
                    Kernel::lemma_lookup_same_vm(s0, s2, rooti, bw);
                    assert(kc.spec_mapped(rooti, bw) && 0 <= kc.spec_pn(rooti, bw) < NPAGES);
                    assert(bw != bva);
                    if bw >> 12 == bva >> 12 {
                        s0.lemma_same_page_lookup(rooti, bw, bva);
                        Kernel::lemma_same_page_distinct_offset(bw, bva);
                    } else {
                        assert(kc.spec_pn(rooti, bw) != kc.spec_pn(rooti, bva));
                    }
                    assert(s0.spec_pa(rooti, bw) != s0.spec_pa(rooti, bva)) by (nonlinear_arith)
                        requires
                            s0.spec_pa(rooti, bw) == s0.spec_pn(rooti, bw) * 4096 + bw as int
                                % 4096,
                            s0.spec_pa(rooti, bva) == s0.spec_pn(rooti, bva) * 4096 + bva as int
                                % 4096,
                            s0.spec_pn(rooti, bw) == s0.spec_pn(rooti, bva) ==> bw as int % 4096
                                != bva as int % 4096,
                            0 <= bw as int % 4096 < 4096,
                            0 <= bva as int % 4096 < 4096,
                    ;
                }
                assert(s2.spec_vm_read(rooti, bva) == b) by {
                    Kernel::lemma_lookup_same_vm(s0, s2, rooti, bva);
                }
            }
            i = i + 1;
        }
    }

    /// Re-map every page of `[va_lo, end_mem)` under `root` read-only
    /// (present and user-accessible, no write), onto the same physical
    /// frames.  Never fails: the pages are already mapped.
    #[verifier::loop_isolation(false)]
    #[verifier::rlimit(100)]
    fn seg_protect(&mut self, root: usize, va_lo: usize, end_mem: usize)
        requires
            old(self).wf(),
            root < NPAGES,
            old(self).lvl(root as int) == 4,
            va_lo % 4096 == 0,
            va_lo <= end_mem,
            end_mem + 4096 <= 0x1_0000_0000_0000,
            end_mem + 4096 <= usize::MAX,
            old(self).seg_pages_ok(root as int, va_lo as int, end_mem as int, 7),
        ensures
            final(self).wf(),
            final(self).lvl(root as int) == 4,
            final(self).same_procs(*old(self)),
            final(self).same_console(*old(self)),
            final(self).same_mem(*old(self)),
            final(self).pageinfo_monotone(*old(self)),
            final(self).levels_monotone(*old(self)),
            final(self).seg_pages_ok(root as int, va_lo as int, end_mem as int, 5),
            forall|w: u64|
                va_lo <= w < end_mem ==> #[trigger] final(self).spec_pn(root as int, w) == old(
                    self,
                ).spec_pn(root as int, w),
    {
        let ghost rooti = root as int;
        let mut addr: usize = va_lo;
        while addr < end_mem
            invariant
                self.wf(),
                self.lvl(rooti) == 4,
                va_lo <= addr,
                addr % 4096 == 0,
                addr <= end_mem + 4095,
                self.same_procs(*old(self)),
                self.same_console(*old(self)),
                self.same_mem(*old(self)),
                self.pageinfo_monotone(*old(self)),
                self.levels_monotone(*old(self)),
                self.seg_pages_ok(rooti, va_lo as int, addr as int, 5),
                self.seg_pages_ok(rooti, addr as int, end_mem as int, 7),
                forall|w: u64|
                    va_lo <= w < end_mem ==> #[trigger] self.spec_pn(rooti, w) == old(
                        self,
                    ).spec_pn(rooti, w),
            decreases end_mem + 4096 - addr,
        {
            let ghost s0 = *self;
            let ghost au = addr as u64;
            let vam = self.virtual_memory_lookup(root, addr);
            proof {
                assert(s0.spec_mapped(rooti, au));
                assert(vam.pn == s0.spec_pn(rooti, au) && 0 <= vam.pn < 512);
                assert((addr as u64) as int % 4096 == 0);
                assert(vam.pa == s0.spec_pn(rooti, au) * 4096 + au as int % 4096);
                assert(vam.pa as int % 4096 == 0 && vam.pa + 4096 <= MEMSIZE_PHYSICAL) by (
                nonlinear_arith)
                    requires
                        vam.pa == s0.spec_pn(rooti, au) * 4096,
                        0 <= s0.spec_pn(rooti, au) < 512,
                ;
                assert(5i32 & 1i32 == 1) by (bit_vector);
            }
            let r = self.virtual_memory_map(root, addr, vam.pa as usize, PAGESIZE, 5);
            let ghost s2 = *self;
            proof {
                assert(spec_page_va(addr as int, 0) == au);
                assert(s0.spec_walk3(rooti, au) is Some);
                assert(r == 0);
                assert(s2.spec_mapped(rooti, au) && s2.spec_pn(rooti, au) == vam.pa as int / 4096
                    && s2.spec_perm(rooti, au) == 5);
                assert(s2.spec_pn(rooti, au) == s0.spec_pn(rooti, au)) by (nonlinear_arith)
                    requires
                        s2.spec_pn(rooti, au) == vam.pa as int / 4096,
                        vam.pa == s0.spec_pn(rooti, au) * 4096,
                ;
                // this page's addresses
                assert forall|w: u64| addr <= w < addr + 4096 implies {
                    &&& s2.spec_mapped(rooti, w)
                    &&& s2.spec_perm(rooti, w) == 5
                    &&& s2.spec_pn(rooti, w) == s0.spec_pn(rooti, w)
                } by {
                    Kernel::lemma_within_page(w, au);
                    s2.lemma_same_page_lookup(rooti, w, au);
                    s0.lemma_same_page_lookup(rooti, w, au);
                }
                // all other addresses of the segment
                assert forall|w: u64| va_lo <= w < end_mem && !(addr <= w < addr
                    + 4096) implies {
                    &&& s2.spec_mapped(rooti, w) == s0.spec_mapped(rooti, w)
                    &&& s2.spec_perm(rooti, w) == s0.spec_perm(rooti, w)
                    &&& s2.spec_pn(rooti, w) == s0.spec_pn(rooti, w)
                } by {
                    let pw = (w >> 12) << 12;
                    Kernel::lemma_page_start(w, va_lo as u64);
                    assert(!(addr <= pw < addr + 4096)) by {
                        if addr <= pw < addr + 4096 {
                            // the window holds a single aligned address
                            assert(pw == au) by (bit_vector)
                                requires
                                    pw % 4096 == 0,
                                    au % 4096 == 0,
                                    au <= pw,
                                    pw < au + 4096,
                            ;
                            assert(addr <= w < addr + 4096);
                        }
                    };
                    s0.lemma_same_page_lookup(rooti, w, pw);
                    s2.lemma_same_page_lookup(rooti, w, pw);
                    assert(s2.spec_mapped(rooti, pw) == s0.spec_mapped(rooti, pw) && (
                    s0.spec_mapped(rooti, pw) ==> s2.spec_leaf(rooti, pw) == s0.spec_leaf(
                        rooti,
                        pw,
                    )));
                }
                // the re-mapped prefix, the freshly re-mapped page (whose
                // last part may lie past the segment end), and the rest
                assert forall|w: u64| va_lo <= w < addr + 4096 implies {
                    &&& s2.spec_mapped(rooti, w)
                    &&& s2.spec_perm(rooti, w) == 5
                    &&& 0 <= s2.spec_pn(rooti, w) < NPAGES
                    &&& s2.pageinfo@[s2.spec_pn(rooti, w)].refcount != 0
                } by {
                    if addr <= w {
                        Kernel::lemma_within_page(w, au);
                        s2.lemma_same_page_lookup(rooti, w, au);
                        s0.lemma_same_page_lookup(rooti, w, au);
                        assert(s0.spec_mapped(rooti, au));
                        assert(s0.pageinfo@[s0.spec_pn(rooti, au)].refcount != 0);
                    } else {
                        assert(s0.spec_mapped(rooti, w));
                        assert(s0.pageinfo@[s0.spec_pn(rooti, w)].refcount != 0);
                    }
                }
            }
            addr = addr + PAGESIZE;
        }
    }

    /// Load one ELF segment into the address space of process `pid`:
    /// allocate a fresh physical page for every page of
    /// `[p_va, p_va + p_memsz)`, map them writable, copy `p_filesz` bytes
    /// from the image and zero the rest, and finally re-map the pages
    /// read-only when the segment is not writable.  Returns 0 on success
    /// and -1 exactly when physical memory ran out (pages placed before
    /// the failure stay in place).
    #[verifier::rlimit(100)]
    pub fn program_load_segment(&mut self, pid: usize, ph: &ElfProgram, image: &Vec<u8>) -> (r:
        i32)
        requires
            old(self).wf(),
            1 <= pid < NPROC,
            old(self).processes@[pid as int].p_state != P_FREE,
            ph.p_filesz <= ph.p_memsz,
            ph.p_va + ph.p_memsz + 4096 <= 0x1_0000_0000_0000,
            ph.p_va + ph.p_memsz + 4096 <= usize::MAX,
            ph.p_offset + ph.p_filesz <= image@.len(),
        ensures
            final(self).wf(),
            final(self).same_console(*old(self)),
            final(self).same_procs(*old(self)),
            final(self).pageinfo_monotone(*old(self)),
            final(self).levels_monotone(*old(self)),
            r == 0 || r == -1,
            r == -1 ==> !final(self).spec_has_free_page(),
            r == -1 ==> final(self).same_mem(*old(self)),
            // a failure rolls nothing back: a prefix of the segment's
            // pages is already placed, writable, and stays so
            r == -1 ==> exists|a: int|
                (ph.p_va as int) / 4096 * 4096 <= a && #[trigger] final(self).seg_pages_ok(
                    old(self).processes@[pid as int].p_pagetable as int,
                    (ph.p_va as int) / 4096 * 4096,
                    a,
                    7,
                ),
            r == 0 ==> {
                &&& final(self).seg_pages_ok(
                    old(self).processes@[pid as int].p_pagetable as int,
                    (ph.p_va as int) / 4096 * 4096,
                    ph.p_va + ph.p_memsz,
                    if ph.p_flags & 2 != 0 {
                        7int
                    } else {
                        5int
                    },
                )
                &&& final(self).seg_pages_distinct(
                    old(self).processes@[pid as int].p_pagetable as int,
                    (ph.p_va as int) / 4096 * 4096,
                    ph.p_va + ph.p_memsz,
                )
                &&& final(self).seg_pages_owned(
                    old(self).processes@[pid as int].p_pagetable as int,
                    (ph.p_va as int) / 4096 * 4096,
                    ph.p_va + ph.p_memsz,
                    pid as int,
                )
                &&& final(self).seg_bytes_ok(
                    old(self).processes@[pid as int].p_pagetable as int,
                    ph.p_va as int,
                    ph.p_offset as int,
                    ph.p_filesz as int,
                    ph.p_memsz as int,
                    image@,
                )
            },
    {
        let _len: usize = image.len();
        let root = self.processes[pid].p_pagetable;
        let ghost rooti = root as int;
        let va_lo: usize = (ph.p_va as usize) / PAGESIZE * PAGESIZE;
        let base: usize = ph.p_va as usize;
        let memsz: usize = ph.p_memsz as usize;
        let filesz: usize = ph.p_filesz as usize;
        let offset: usize = ph.p_offset as usize;
        let end_mem: usize = base + memsz;
        proof {
            assert(va_lo % 4096 == 0 && va_lo <= base && base < va_lo + 4096) by (
            nonlinear_arith)
                requires
                    va_lo == base / 4096 * 4096,
            ;
        }
        proof {
            assert((ph.p_va as usize) as int == ph.p_va as int);
            assert(va_lo as int == (ph.p_va as int) / 4096 * 4096);
        }
        let r1 = self.seg_alloc(pid, root, va_lo, end_mem);
        if r1 < 0 {
            proof {
                let aw = choose|a: int|
                    va_lo <= a && #[trigger] self.seg_pages_ok(rooti, va_lo as int, a, 7);
                assert(self.seg_pages_ok(
                    old(self).processes@[pid as int].p_pagetable as int,
                    (ph.p_va as int) / 4096 * 4096,
                    aw,
                    7,
                ));
            }
            return -1;
        }
        let ghost ka = *self;
        proof {
            assert(ka.seg_pages_ok(rooti, va_lo as int, end_mem as int, 7));
            assert(ka.seg_pages_distinct(rooti, va_lo as int, end_mem as int));
            assert(ka.seg_pages_owned(rooti, va_lo as int, end_mem as int, pid as int));
            // the segment's own bytes lie inside the allocated range
            ka.lemma_seg_range_restrict(rooti, va_lo as int, base as int, end_mem as int, 7);
            assert(ka.seg_pages_distinct(rooti, base as int, end_mem as int));
        }
        self.seg_fill(root, base, filesz, memsz, offset, image);
        let ghost kb = *self;
        proof {
            Kernel::lemma_seg_pages_same_vm(ka, kb, rooti, va_lo as int, end_mem as int, 7);
            Kernel::lemma_seg_owned_same_vm(
                ka,
                kb,
                rooti,
                va_lo as int,
                end_mem as int,
                pid as int,
            );
            Kernel::lemma_seg_distinct_same_vm(ka, kb, rooti, va_lo as int, end_mem as int);
        }
        if ph.p_flags & ELF_PFLAG_WRITE == 0 {
            self.seg_protect(root, va_lo, end_mem);
            let ghost kf = *self;
            proof {
                // frames did not move and memory did not change, so the
                // loaded bytes still read back
                assert forall|i: int| 0 <= i < memsz implies kf.spec_vm_read(
                    rooti,
                    #[trigger] spec_byte_va(base as int, i),
                ) == (if i < filesz {
                    image@[offset + i]
                } else {
                    0
                }) by {
                    let bw = spec_byte_va(base as int, i);
                    assert(kb.spec_vm_read(rooti, bw) == (if i < filesz {
                        image@[offset + i]
                    } else {
                        0
                    }));
                    assert(kf.spec_pn(rooti, bw) == kb.spec_pn(rooti, bw));
                    assert(kf.spec_pa(rooti, bw) == kb.spec_pa(rooti, bw));
                }
                assert(kf.seg_pages_ok(rooti, va_lo as int, end_mem as int, 5));
                Kernel::lemma_seg_records_preserved(
                    kb,
                    kf,
                    rooti,
                    va_lo as int,
                    end_mem as int,
                    pid as int,
                    7,
                );
            }
        }
        0
    }
    /// Resolve compiled-in program image `program_number` and load each
    /// of its LOAD segments into the address space of process `pid`, then
    /// set the process's instruction pointer to the image's entry point.
    /// Returns 0 on success and -1 when the number is out of range or
    /// physical memory ran out.
    #[verifier::loop_isolation(false)]
    #[verifier::rlimit(100)]
    pub fn load_program(&mut self, pid: usize, program_number: usize) -> (r: i32)
        requires
            old(self).wf(),
            1 <= pid < NPROC,
            old(self).processes@[pid as int].p_state != P_FREE,
        ensures
            final(self).wf(),
            final(self).same_console(*old(self)),
            final(self).current == old(self).current,
            final(self).ticks == old(self).ticks,
            final(self).pageinfo_monotone(*old(self)),
            r == 0 || r == -1,
            program_number >= NPROGRAMS ==> r == -1,
            r == -1 ==> program_number >= NPROGRAMS || !final(self).spec_has_free_page(),
            forall|p: int|
                0 <= p < NPROC && p != pid ==> final(self).processes@[p] == old(
                    self,
                ).processes@[p],
            final(self).processes@[pid as int].p_state == old(self).processes@[pid
                as int].p_state,
            final(self).processes@[pid as int].p_pagetable == old(self).processes@[pid
                as int].p_pagetable,
            r == 0 ==> final(self).processes@[pid as int].p_registers.reg_rip == PROGRAM_ENTRY,
            // the image is identified by its number, stored just past the
            // entry point
            r == 0 ==> final(self).spec_vm_read(
                old(self).processes@[pid as int].p_pagetable as int,
                (PROGRAM_ENTRY + 2) as u64,
            ) == program_number as u8 && final(self).spec_mapped(
                old(self).processes@[pid as int].p_pagetable as int,
                (PROGRAM_ENTRY + 2) as u64,
            ),
            r != 0 ==> final(self).processes@[pid as int] == old(self).processes@[pid as int],
    {
        let image = match program_image(program_number) {
            None => { return -1; },
            Some(img) => img,
        };
        let header = match parse_elf_header(&image) {
            None => { return -1; },
            Some(h) => h,
        };
        let phnum: usize = header.e_phnum as usize;
        let ghost rooti = self.processes@[pid as int].p_pagetable as int;
        let mut i: usize = 0;
        while i < phnum
            invariant
                self.wf(),
                i <= phnum,
                self.same_console(*old(self)),
                self.same_procs(*old(self)),
                self.pageinfo_monotone(*old(self)),
                i >= 1 ==> self.spec_vm_read(rooti, (PROGRAM_ENTRY + 2) as u64)
                    == program_number as u8 && self.spec_mapped(
                    rooti,
                    (PROGRAM_ENTRY + 2) as u64,
                ),
            decreases phnum - i,
        {
            let off = 64 + i * ELF_PROGRAM_SIZE;
            let ph = match parse_elf_program(&image, off) {
                None => { return -1; },
                Some(ph) => ph,
            };
            if ph.p_type == ELF_PTYPE_LOAD {
                proof {
                    // the built-in images hold one well-formed segment
                    assert(i == 0);
                    assert(ph.p_va == PROGRAM_ENTRY && ph.p_filesz == 8 && ph.p_memsz == 16
                        && ph.p_offset == 120);
                }
                let rs = self.program_load_segment(pid, &ph, &image);
                if rs < 0 {
                    return -1;
                }
                proof {
                    assert(spec_byte_va(ph.p_va as int, 2) == (PROGRAM_ENTRY + 2) as u64);
                    assert(self.spec_vm_read(rooti, (PROGRAM_ENTRY + 2) as u64) == image@[
                        ph.p_offset + 2]);
                    assert(image@[122] == program_number as u8);
                    assert(self.spec_mapped(rooti, (PROGRAM_ENTRY + 2) as u64));
                }
            }
            i = i + 1;
        }
        self.processes[pid].p_registers.reg_rip = header.e_entry;
        0
    }

    /// Create process `pid` running compiled-in program `program_number`:
    /// reset the slot, give it a fresh root page table carrying the
    /// kernel's identity mapping (kernel-only), load the program, place
    /// one stack page just below the slot's fixed stack top, and mark the
    /// process Runnable.  Any failure aborts the creation with -1 and the
    /// slot stays off the schedule.
    #[verifier::rlimit(100)]
    pub fn process_setup(&mut self, pid: usize, program_number: usize) -> (r: i32)
        requires
            old(self).wf(),
            1 <= pid < NPROC,
        ensures
            final(self).wf(),
            final(self).same_console(*old(self)),
            final(self).current == old(self).current,
            final(self).ticks == old(self).ticks,
            final(self).pageinfo_monotone(*old(self)),
            r == 0 || r == -1,
            program_number >= NPROGRAMS ==> r == -1,
            r == -1 ==> program_number >= NPROGRAMS || !final(self).spec_has_free_page(),
            r == 0 ==> old(self).spec_has_free_page(),
            forall|p: int|
                0 <= p < NPROC && p != pid ==> final(self).processes@[p] == old(
                    self,
                ).processes@[p],
            r == 0 ==> {
                &&& final(self).processes@[pid as int].p_state == P_RUNNABLE
                &&& final(self).processes@[pid as int].p_registers.reg_rip == PROGRAM_ENTRY
                &&& final(self).processes@[pid as int].p_registers.reg_rsp == PROC_START_ADDR
                    + pid * PROC_SIZE
                &&& final(self).processes@[pid as int].p_pagetable != final(self).kernel_pagetable
                // the slot owns its root table, and one freshly assigned
                // stack page of its own is mapped writable and
                // user-accessible just below the fixed stack top
                &&& final(self).pageinfo@[final(self).processes@[pid
                    as int].p_pagetable as int].owner == pid
                &&& final(self).spec_mapped(
                    final(self).processes@[pid as int].p_pagetable as int,
                    (PROC_START_ADDR + pid * PROC_SIZE - PAGESIZE) as u64,
                )
                &&& final(self).spec_perm(
                    final(self).processes@[pid as int].p_pagetable as int,
                    (PROC_START_ADDR + pid * PROC_SIZE - PAGESIZE) as u64,
                ) == 7
                &&& final(self).pageinfo@[final(self).spec_pn(
                    final(self).processes@[pid as int].p_pagetable as int,
                    (PROC_START_ADDR + pid * PROC_SIZE - PAGESIZE) as u64,
                )].owner == pid
                &&& final(self).pageinfo@[final(self).spec_pn(
                    final(self).processes@[pid as int].p_pagetable as int,
                    (PROC_START_ADDR + pid * PROC_SIZE - PAGESIZE) as u64,
                )].refcount != 0
                // the loaded image is the requested one, identified by
                // its number stored just past the entry point
                &&& final(self).spec_vm_read(
                    final(self).processes@[pid as int].p_pagetable as int,
                    (PROGRAM_ENTRY + 2) as u64,
                ) == program_number as u8
            },
            r != 0 ==> final(self).processes@[pid as int].p_state == P_BLOCKED,
    {
        self.process_init(pid, 0);
        let rootr = self.alloc_pagetable_root(pid as i8);
        if rootr < 0 {
            return -1;
        }
        let root = rootr as usize;
        proof {
            // the fresh table is not the kernel's (that one is live)
            assert(old(self).lvl(old(self).kernel_pagetable as int) == 4);
        }
        self.processes[pid].p_pagetable = root;
        proof {
            assert(3i32 & 1i32 == 1) by (bit_vector);
        }
        let rk = self.virtual_memory_map(root, 0, 0, PROC_START_ADDR, 3);
        if rk < 0 {
            return -1;
        }
        let rl = self.load_program(pid, program_number);
        if rl != 0 {
            return -1;
        }
        let stack_addr: usize = PROC_START_ADDR + pid * PROC_SIZE - PAGESIZE;
        proof {
            assert(stack_addr % 4096 == 0 && stack_addr + 2 * 4096 <= 0x600000 && 0x13F000
                <= stack_addr) by (nonlinear_arith)
                requires
                    stack_addr == 0x100000 + pid * 0x40000 - 4096,
                    1 <= pid < 16,
            ;
        }
        let ghost s_load = *self;
        let spa = self.palloc(pid as i8);
        if spa < 0 {
            return -1;
        }
        let ghost s_palloc = *self;
        let rs = self.virtual_memory_map(root, stack_addr, spa as usize, PAGESIZE, 7);
        proof {
            assert(7i32 & 1i32 == 1) by (bit_vector);
        }
        if rs < 0 {
            return -1;
        }
        let ghost s_smap = *self;
        self.processes[pid].p_registers.reg_rsp = (stack_addr + PAGESIZE) as u64;
        self.processes[pid].p_state = P_RUNNABLE;
        proof {
            let rt = root as int;
            let sv = stack_addr as u64;
            let spn = spa as int / 4096;
            // the stack page, through the single-page map call
            assert(spec_page_va(stack_addr as int, 0) == sv);
            assert(s_smap.spec_mapped(rt, sv) && s_smap.spec_perm(rt, sv) == 7
                && s_smap.spec_pn(rt, sv) == spn);
            // the later register and state writes leave the tables and the
            // ownership records alone
            Kernel::lemma_lookup_same_vm(s_smap, *self, rt, sv);
            assert(self.pageinfo@ == s_smap.pageinfo@);
            // the stack frame was claimed for this process and stays so
            assert(s_palloc.pageinfo@[spn] == PhysicalPageInfo {
                owner: pid as i8,
                refcount: 1i8,
            });
            assert(s_smap.pageinfo@[spn] == s_palloc.pageinfo@[spn]);
            assert(self.pageinfo@[spn].owner == pid as i8);
            // so was the root table, before the kernel mapping, the
            // program load and the stack steps
            assert(s_load.pageinfo@[rt].refcount != 0 && s_load.pageinfo@[rt].owner == pid
                as i8);
            assert(s_palloc.pageinfo@[rt] == s_load.pageinfo@[rt]);
            assert(s_smap.pageinfo@[rt] == s_palloc.pageinfo@[rt]);
            assert(self.pageinfo@[rt].owner == pid as i8);
            // the image's identity byte survives the stack steps: they
            // change no memory, and the stack window lies past the
            // program's page
            let b = (PROGRAM_ENTRY + 2) as u64;
            let pb = (b >> 12) << 12;
            assert(pb == 0x100000 && pb >> 12 == b >> 12) by (bit_vector)
                requires
                    b == 0x100002u64,
                    pb == (b >> 12) << 12,
            ;
            assert(s_load.spec_vm_read(rt, b) == program_number as u8 && s_load.spec_mapped(
                rt,
                b,
            ));
            Kernel::lemma_lookup_same_vm(s_load, s_palloc, rt, b);
            Kernel::lemma_lookup_same_vm(s_load, s_palloc, rt, pb);
            s_palloc.lemma_same_page_lookup(rt, b, pb);
            assert(s_smap.spec_mapped(rt, pb) == s_palloc.spec_mapped(rt, pb) && (
            s_palloc.spec_mapped(rt, pb) ==> s_smap.spec_leaf(rt, pb) == s_palloc.spec_leaf(
                rt,
                pb,
            )));
            s_smap.lemma_same_page_lookup(rt, b, pb);
            assert(s_smap.spec_pa(rt, b) == s_load.spec_pa(rt, b));
            assert(s_smap.spec_vm_read(rt, b) == program_number as u8);
            Kernel::lemma_lookup_same_vm(s_smap, *self, rt, b);
            assert(self.spec_vm_read(rt, b) == program_number as u8);
        }
        0
    }
    /// The fork service: find a free process slot, build it a fresh
    /// address space with the kernel mapping, copy every user-accessible
    /// page of the current process onto freshly allocated frames, and
    /// start the child Runnable with the parent's saved registers and a
    /// zero return value.  Returns the child pid, or -1 when no slot or
    /// no memory is left (the child slot then stays free; pages already
    /// claimed for it are not reclaimed, as nothing ever frees pages).
    #[verifier::loop_isolation(false)]
    #[verifier::rlimit(100)]
    pub fn syscall_fork(&mut self, regs: &x86_64_registers) -> (child: i32)
        requires
            old(self).wf(),
            old(self).processes@[old(self).current as int].p_state == P_RUNNABLE,
        ensures
            final(self).wf(),
            final(self).current == old(self).current,
            final(self).ticks == old(self).ticks,
            final(self).same_console(*old(self)),
            child == -1 || (1 <= child < NPROC && child != old(self).current),
            child >= 0 ==> {
                &&& final(self).processes@[child as int].p_state == P_RUNNABLE
                &&& final(self).processes@[child as int].p_registers == spec_regs_with_rax(
                    *regs,
                    0,
                )
            },
            child >= 0 ==> forall|p: int|
                0 <= p < NPROC && p != child ==> final(self).processes@[p] == old(
                    self,
                ).processes@[p],
            child == -1 ==> forall|p: int|
                0 <= p < NPROC ==> (#[trigger] final(self).processes@[p]).p_state == old(
                    self,
                ).processes@[p].p_state,
            child == -1 ==> (forall|p: int|
                1 <= p < NPROC ==> (#[trigger] old(self).processes@[p]).p_state != P_FREE)
                || !final(self).spec_has_free_page(),
    {
        let parent = self.current;
        let mut child: usize = 0;
        let mut ci: usize = 1;
        while ci < NPROC
            invariant
                child == 0 || (1 <= child < NPROC && self.processes@[child as int].p_state
                    == P_FREE),
                1 <= ci <= NPROC,
                child == 0 ==> forall|p: int|
                    1 <= p < ci ==> (#[trigger] self.processes@[p]).p_state != P_FREE,
            decreases NPROC - ci,
        {
            if child == 0 && self.processes[ci].p_state == P_FREE {
                child = ci;
            }
            ci = ci + 1;
        }
        if child == 0 {
            return -1;
        }
        proof {
            // the parent is running, so its slot is not the free one
            assert(child != parent);
        }
        self.process_init(child, 0);
        let rootr = self.alloc_pagetable_root(child as i8);
        if rootr < 0 {
            self.processes[child].p_state = P_FREE;
            return -1;
        }
        let child_root = rootr as usize;
        self.processes[child].p_pagetable = child_root;
        proof {
            assert(3i32 & 1i32 == 1) by (bit_vector);
        }
        let rk = self.virtual_memory_map(child_root, 0, 0, PROC_START_ADDR, 3);
        if rk < 0 {
            self.processes[child].p_state = P_FREE;
            return -1;
        }
        let parent_root = self.processes[parent].p_pagetable;
        let mut va: usize = PROC_START_ADDR;
        while va < MEMSIZE_VIRTUAL
            invariant
                self.wf(),
                PROC_START_ADDR <= va,
                va % 4096 == 0,
                self.current == old(self).current,
                self.ticks == old(self).ticks,
                self.same_console(*old(self)),
                1 <= child < NPROC,
                child != parent,
                self.processes@[child as int].p_state == P_BLOCKED,
                self.processes@[child as int].p_pagetable == child_root,
                child_root < NPAGES,
                self.lvl(child_root as int) == 4,
                self.processes@[parent as int].p_state == P_RUNNABLE,
                self.processes@[parent as int].p_pagetable == parent_root,
                forall|p: int|
                    0 <= p < NPROC && p != child ==> self.processes@[p] == old(
                        self,
                    ).processes@[p],
            decreases MEMSIZE_VIRTUAL - va,
        {
            let vam = self.virtual_memory_lookup(parent_root, va);
            if vam.pn >= 0 && (vam.perm as u64) & PTE_U != 0 {
                let pa = self.palloc(child as i8);
                if pa < 0 {
                    self.processes[child].p_state = P_FREE;
                    return -1;
                }
                proof {
                    self.lemma_walk3_levels(parent_root as int, va as u64);
                    let lf = self.spec_leaf(parent_root as int, va as u64);
                    assert(lf & 0xFFF < 0x1000) by (bit_vector);
                    assert(0 <= vam.perm < 0x1000);
                    assert(pa as int % 4096 == 0 && pa + 4096 <= MEMSIZE_PHYSICAL && pa as int
                        / 4096 < 512) by (nonlinear_arith)
                        requires
                            pa as int % 4096 == 0,
                            0x80000 <= (pa as int) && (pa as int) < 0x200000,
                    ;
                }
                let rm = self.virtual_memory_map(child_root, va, pa as usize, PAGESIZE, vam.perm);
                if rm < 0 {
                    self.processes[child].p_state = P_FREE;
                    return -1;
                }
                self.copy_physical_page(vam.pn as usize, (pa as usize) / PAGESIZE);
            }
            va = va + PAGESIZE;
        }
        self.processes[child].p_registers = *regs;
        self.processes[child].p_registers.reg_rax = 0;
        self.processes[child].p_state = P_RUNNABLE;
        child as i32
    }
}

} // verus!
