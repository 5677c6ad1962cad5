//! The virtual memory subsystem: the four-level page-table walk, the
//! mapper that builds translations (allocating intermediate tables on
//! demand), the read-only lookup, and byte access through a page table.
//!
//! The specification layer describes the walk over the table arena; the
//! well-formedness invariant of `Kernel` (see `kernel`) makes the tables a
//! forest, which gives the two facts every proof here rests on: a walk
//! reads only table pages of level >= 2 until it reaches the last level,
//! and no two distinct table slots point to the same table page.

use vstd::prelude::*;
use crate::kernel::{Kernel, PhysicalPageInfo, NPAGES, MEMSIZE_PHYSICAL};
use crate::x86_64::{
    x86_64_pagetable, VAMapping, pte_present, spec_pte_pn, spec_pte_flags, spec_pageindex,
    lemma_pageindex_bounded, lemma_pte_addr_pn, pageindex, pte_addr, pte_flags, pageoffset,
    PAGESIZE, PTE_P, PTE_W, PTE_U,
};

verus! {

/// The virtual address of page `j` of a range starting at `va`.
pub open spec fn spec_page_va(va: int, j: int) -> u64 {
    (va + j * 4096) as u64
}

/// The virtual address of byte `i` of a range starting at `va`.
pub open spec fn spec_byte_va(va: int, i: int) -> u64 {
    (va + i) as u64
}

impl Kernel {
    /// Walk the three upper levels of the tree from root table `root` for
    /// `va`: the page number of the last-level table, if every traversed
    /// entry is present.
    pub open spec fn spec_walk3(self, root: int, va: u64) -> Option<int> {
        let e0 = self.entry(root, spec_pageindex(va, 0));
        if !pte_present(e0) {
            None
        } else {
            let e1 = self.entry(spec_pte_pn(e0), spec_pageindex(va, 1));
            if !pte_present(e1) {
                None
            } else {
                let e2 = self.entry(spec_pte_pn(e1), spec_pageindex(va, 2));
                if !pte_present(e2) {
                    None
                } else {
                    Some(spec_pte_pn(e2))
                }
            }
        }
    }

    /// The last-level entry reached for `va` (0 when a level is missing).
    pub open spec fn spec_leaf(self, root: int, va: u64) -> u64 {
        match self.spec_walk3(root, va) {
            Some(l1) => self.entry(l1, spec_pageindex(va, 3)),
            None => 0,
        }
    }

    /// Whether `va` translates to a physical page under root table `root`.
    pub open spec fn spec_mapped(self, root: int, va: u64) -> bool {
        &&& self.spec_walk3(root, va) is Some
        &&& pte_present(self.spec_leaf(root, va))
    }

    /// The physical page number `va` translates to.
    pub open spec fn spec_pn(self, root: int, va: u64) -> int {
        spec_pte_pn(self.spec_leaf(root, va))
    }

    /// The physical address `va` translates to.
    pub open spec fn spec_pa(self, root: int, va: u64) -> int {
        spec_pte_pn(self.spec_leaf(root, va)) * 4096 + va as int % 4096
    }

    /// The effective permission bits of the translation.
    pub open spec fn spec_perm(self, root: int, va: u64) -> u64 {
        spec_pte_flags(self.spec_leaf(root, va))
    }

    /// Pages that were table pages keep their level.
    pub open spec fn levels_monotone(self, pre: Kernel) -> bool {
        &&& self.table_level@.len() == pre.table_level@.len()
        &&& forall|pn: int|
            0 <= pn < NPAGES && pre.table_level@[pn] >= 1 ==> #[trigger] self.table_level@[pn]
                == pre.table_level@[pn]
    }

    /// Entries that were present keep their value, and last-level tables
    /// are untouched.
    pub open spec fn tables_preserve(self, pre: Kernel) -> bool {
        &&& self.tables@.len() == pre.tables@.len()
        &&& forall|t: int, i: int|
            #![trigger self.tables@[t].entry@[i]]
            0 <= t < NPAGES && 0 <= i < 512 && pte_present(pre.tables@[t].entry@[i])
                ==> self.tables@[t].entry@[i] == pre.tables@[t].entry@[i]
        &&& forall|t: int|
            0 <= t < NPAGES && pre.table_level@[t] == 1 ==> #[trigger] self.tables@[t]
                == pre.tables@[t]
    }

    /// Along a successful walk the traversed tables sit at levels 3, 2, 1
    /// of the forest and all page numbers stay in range.
    pub proof fn lemma_walk3_levels(self, root: int, va: u64)
        requires
            self.wf(),
            0 <= root < NPAGES,
            self.lvl(root) == 4,
        ensures
            self.spec_walk3(root, va) matches Some(l1) ==> {
                &&& 0 <= l1 < NPAGES
                &&& self.lvl(l1) == 1
                &&& 0 <= spec_pte_pn(self.spec_leaf(root, va)) < NPAGES
            },
    {
        lemma_pageindex_bounded(va, 0);
        lemma_pageindex_bounded(va, 1);
        lemma_pageindex_bounded(va, 2);
        lemma_pageindex_bounded(va, 3);
    }

    /// A walk that succeeded keeps its result in any later state in which
    /// every present entry kept its value.
    pub proof fn lemma_walk_preserved(pre: Kernel, post: Kernel, root: int, va: u64)
        requires
            pre.wf(),
            0 <= root < NPAGES,
            pre.lvl(root) == 4,
            post.tables@.len() == NPAGES,
            forall|t: int, i: int|
                #![trigger post.tables@[t].entry@[i]]
                0 <= t < NPAGES && 0 <= i < 512 && pte_present(pre.tables@[t].entry@[i])
                    ==> post.tables@[t].entry@[i] == pre.tables@[t].entry@[i],
        ensures
            pre.spec_walk3(root, va) matches Some(l1) ==> post.spec_walk3(root, va) == Some(l1),
    {
        lemma_pageindex_bounded(va, 0);
        lemma_pageindex_bounded(va, 1);
        lemma_pageindex_bounded(va, 2);
        pre.lemma_walk3_levels(root, va);
    }

    /// Two walks from the same root that reach the same last-level table
    /// agree on every index along the way: the forest has no sharing.
    pub proof fn lemma_same_l1(self, root: int, va1: u64, va2: u64)
        requires
            self.wf(),
            0 <= root < NPAGES,
            self.lvl(root) == 4,
            self.spec_walk3(root, va1) is Some,
            self.spec_walk3(root, va1) == self.spec_walk3(root, va2),
        ensures
            spec_pageindex(va1, 0) == spec_pageindex(va2, 0),
            spec_pageindex(va1, 1) == spec_pageindex(va2, 1),
            spec_pageindex(va1, 2) == spec_pageindex(va2, 2),
    {
        lemma_pageindex_bounded(va1, 0);
        lemma_pageindex_bounded(va1, 1);
        lemma_pageindex_bounded(va1, 2);
        lemma_pageindex_bounded(va2, 0);
        lemma_pageindex_bounded(va2, 1);
        lemma_pageindex_bounded(va2, 2);
        let e0a = self.entry(root, spec_pageindex(va1, 0));
        let t1a = spec_pte_pn(e0a);
        let e1a = self.entry(t1a, spec_pageindex(va1, 1));
        let t2a = spec_pte_pn(e1a);
        let e2a = self.entry(t2a, spec_pageindex(va1, 2));
        let e0b = self.entry(root, spec_pageindex(va2, 0));
        let t1b = spec_pte_pn(e0b);
        let e1b = self.entry(t1b, spec_pageindex(va2, 1));
        let t2b = spec_pte_pn(e1b);
        let e2b = self.entry(t2b, spec_pageindex(va2, 2));
        // The two last entries point to the same table, so by injectivity
        // they are the same cell; repeat one level up each time.
        assert(t2a == t2b && spec_pageindex(va1, 2) == spec_pageindex(va2, 2)) by {
            if t2a != t2b || spec_pageindex(va1, 2) != spec_pageindex(va2, 2) {
                assert(spec_pte_pn(e2a) != spec_pte_pn(e2b));
            }
        };
        assert(t1a == t1b && spec_pageindex(va1, 1) == spec_pageindex(va2, 1)) by {
            if t1a != t1b || spec_pageindex(va1, 1) != spec_pageindex(va2, 1) {
                assert(spec_pte_pn(e1a) != spec_pte_pn(e1b));
            }
        };
        assert(spec_pageindex(va1, 0) == spec_pageindex(va2, 0)) by {
            if spec_pageindex(va1, 0) != spec_pageindex(va2, 0) {
                assert(spec_pte_pn(e0a) != spec_pte_pn(e0b));
            }
        };
    }

    /// Page-aligned canonical addresses are determined by their four
    /// page-table indices.
    pub proof fn lemma_pageindex_inject(va1: u64, va2: u64)
        requires
            va1 < 0x1_0000_0000_0000,
            va2 < 0x1_0000_0000_0000,
            va1 % 4096 == 0,
            va2 % 4096 == 0,
            spec_pageindex(va1, 0) == spec_pageindex(va2, 0),
            spec_pageindex(va1, 1) == spec_pageindex(va2, 1),
            spec_pageindex(va1, 2) == spec_pageindex(va2, 2),
            spec_pageindex(va1, 3) == spec_pageindex(va2, 3),
        ensures
            va1 == va2,
    {
        assert(va1 == va2) by (bit_vector)
            requires
                va1 < 0x1_0000_0000_0000,
                va2 < 0x1_0000_0000_0000,
                va1 % 4096 == 0,
                va2 % 4096 == 0,
                (va1 >> 39) & 0x1FF == (va2 >> 39) & 0x1FF,
                (va1 >> 30) & 0x1FF == (va2 >> 30) & 0x1FF,
                (va1 >> 21) & 0x1FF == (va2 >> 21) & 0x1FF,
                (va1 >> 12) & 0x1FF == (va2 >> 12) & 0x1FF,
        ;
    }

    /// Writing a last-level entry preserves well-formedness, never moves a
    /// walk, and changes exactly one translation.
    pub proof fn lemma_leaf_write(pre: Kernel, post: Kernel, l1: int, i: int, v: u64)
        requires
            pre.wf(),
            0 <= l1 < NPAGES,
            0 <= i < 512,
            pre.lvl(l1) == 1,
            0 <= spec_pte_pn(v) < NPAGES,
            post.tables@.len() == NPAGES,
            post.tables@[l1].entry@ == pre.tables@[l1].entry@.update(i, v),
            post.tables@[l1].entry@.len() == 512,
            forall|t: int| 0 <= t < NPAGES && t != l1 ==> post.tables@[t] == pre.tables@[t],
            post.table_level@ == pre.table_level@,
            post.pageinfo@ == pre.pageinfo@,
            post.mem@ == pre.mem@,
            post.processes@ == pre.processes@,
            post.current == pre.current,
            post.console@ == pre.console@,
            post.kernel_pagetable == pre.kernel_pagetable,
        ensures
            post.wf_lens() == pre.wf_lens(),
            pre.wf_lens() ==> post.wf(),
            forall|root: int, va: u64|
                #![trigger post.spec_walk3(root, va)]
                0 <= root < NPAGES && pre.lvl(root) == 4 ==> post.spec_walk3(root, va)
                    == pre.spec_walk3(root, va),
            forall|root: int, va: u64|
                #![trigger post.spec_leaf(root, va)]
                0 <= root < NPAGES && pre.lvl(root) == 4 ==> post.spec_leaf(root, va) == (
                if pre.spec_walk3(root, va) == Some(l1) && spec_pageindex(va, 3) == i {
                    v
                } else {
                    pre.spec_leaf(root, va)
                }),
    {
        assert forall|t: int, ii: int|
            0 <= t < NPAGES && 0 <= ii < 512 && (t != l1 || ii != i) implies #[trigger] post.tables@[t].entry@[ii]
            == pre.tables@[t].entry@[ii] by {}
        assert forall|root: int, va: u64|
            0 <= root < NPAGES && pre.lvl(root) == 4 implies #[trigger] post.spec_walk3(root, va)
            == pre.spec_walk3(root, va) by {
            lemma_pageindex_bounded(va, 0);
            lemma_pageindex_bounded(va, 1);
            lemma_pageindex_bounded(va, 2);
            pre.lemma_walk3_levels(root, va);
        }
        assert forall|root: int, va: u64|
            0 <= root < NPAGES && pre.lvl(root) == 4 implies #[trigger] post.spec_leaf(root, va)
            == (if pre.spec_walk3(root, va) == Some(l1) && spec_pageindex(va, 3) == i {
            v
        } else {
            pre.spec_leaf(root, va)
        }) by {
            lemma_pageindex_bounded(va, 3);
            pre.lemma_walk3_levels(root, va);
            assert(post.spec_walk3(root, va) == pre.spec_walk3(root, va));
        }
        if pre.wf_lens() {
            assert(post.wf_levels()) by {
                assert forall|t: int, ii: int|
                    0 <= t < NPAGES && 0 <= ii < 512 && !(t == l1 && ii == i) implies #[trigger] post.tables@[t].entry@[ii]
                    == pre.tables@[t].entry@[ii] by {}
            }
            assert(post.wf_processes());
        }
    }
}

/// Whether a page-table entry has its Present bit set.
pub fn entry_present(e: u64) -> (b: bool)
    ensures
        b == pte_present(e),
{
    proof {
        assert(e & 1 == 0 || e & 1 == 1) by (bit_vector);
    }
    e & PTE_P != 0
}

impl Kernel {
    /// Walk the four levels of `pagetable` for `va`, read-only, taking the
    /// bitwise AND of the Present/Writable/User bits along the way exactly
    /// as the hardware does.  Never allocates and never fails: an absent
    /// level yields the unmapped result.
    pub fn virtual_memory_lookup(&self, pagetable: usize, va: usize) -> (vam: VAMapping)
        requires
            self.wf(),
            pagetable < NPAGES,
            self.lvl(pagetable as int) == 4,
        ensures
            vam.pn == if self.spec_mapped(pagetable as int, va as u64) {
                self.spec_pn(pagetable as int, va as u64)
            } else {
                -1
            },
            vam.pa == if self.spec_mapped(pagetable as int, va as u64) {
                self.spec_pa(pagetable as int, va as u64)
            } else {
                u64::MAX as int
            },
            vam.perm == if self.spec_mapped(pagetable as int, va as u64) {
                self.spec_perm(pagetable as int, va as u64)
            } else {
                0
            },
    {
        let ghost root = pagetable as int;
        let ghost gva = va as u64;
        proof {
            lemma_pageindex_bounded(gva, 0);
            lemma_pageindex_bounded(gva, 1);
            lemma_pageindex_bounded(gva, 2);
            lemma_pageindex_bounded(gva, 3);
            self.lemma_walk3_levels(root, gva);
        }
        let mask: u64 = PTE_P | PTE_W | PTE_U;
        proof {
            assert(1u64 | 2u64 | 4u64 == 7u64) by (bit_vector);
        }
        let i0 = pageindex(va, 0);
        let e0 = self.tables[pagetable].entry[i0];
        let pe0 = e0 & (mask | !mask);
        proof {
            assert(pe0 == e0) by (bit_vector)
                requires
                    pe0 == e0 & (7u64 | !7u64),
            ;
        }
        if !entry_present(pe0) {
            return VAMapping::default();
        }
        proof {
            lemma_pte_addr_pn(pe0);
        }
        let t1 = (pte_addr(pe0) / PAGESIZE as u64) as usize;
        let i1 = pageindex(va, 1);
        let e1 = self.tables[t1].entry[i1];
        let pe1 = e1 & (pe0 | !mask);
        proof {
            assert(pe1 == e1) by (bit_vector)
                requires
                    pe1 == e1 & (pe0 | !7u64),
                    pe0 & 0xFFF == 7u64,
            ;
        }
        if !entry_present(pe1) {
            return VAMapping::default();
        }
        proof {
            lemma_pte_addr_pn(pe1);
        }
        let t2 = (pte_addr(pe1) / PAGESIZE as u64) as usize;
        let i2 = pageindex(va, 2);
        let e2 = self.tables[t2].entry[i2];
        let pe2 = e2 & (pe1 | !mask);
        proof {
            assert(pe2 == e2) by (bit_vector)
                requires
                    pe2 == e2 & (pe1 | !7u64),
                    pe1 & 0xFFF == 7u64,
            ;
        }
        if !entry_present(pe2) {
            return VAMapping::default();
        }
        proof {
            lemma_pte_addr_pn(pe2);
        }
        let l1t = (pte_addr(pe2) / PAGESIZE as u64) as usize;
        let i3 = pageindex(va, 3);
        let e3 = self.tables[l1t].entry[i3];
        let pe3 = e3 & (pe2 | !mask);
        proof {
            assert(pe3 == e3) by (bit_vector)
                requires
                    pe3 == e3 & (pe2 | !7u64),
                    pe2 & 0xFFF == 7u64,
            ;
        }
        if !entry_present(pe3) {
            return VAMapping::default();
        }
        proof {
            lemma_pte_addr_pn(pe3);
            assert(pe3 & 0xFFF < 0x1000) by (bit_vector);
        }
        let pn = (pte_addr(pe3) / PAGESIZE as u64) as usize;
        let pa = pte_addr(pe3) + pageoffset(va) as u64;
        let perm = pte_flags(pe3) as i32;
        VAMapping { pn: pn as i32, pa, perm }
    }

    /// Find the last-level table that serves `va` in `pagetable`, checking
    /// at every traversed level that the entry grants all the permissions
    /// that `perm` requests.  Returns -1 when a level is missing or not
    /// permissive enough; never allocates.
    pub fn lookup_l1pagetable(&self, pagetable: usize, va: usize, perm: i32) -> (r: i32)
        requires
            self.wf(),
            pagetable < NPAGES,
            self.lvl(pagetable as int) == 4,
            0 <= perm < 0x1000,
        ensures
            r >= 0 <==> self.spec_walk3(pagetable as int, va as u64) is Some,
            r >= 0 ==> {
                &&& self.spec_walk3(pagetable as int, va as u64) == Some(r as int)
                &&& r < 512
                &&& self.lvl(r as int) == 1
            },
            r < 0 ==> r == -1,
    {
        let ghost root = pagetable as int;
        let ghost gva = va as u64;
        proof {
            lemma_pageindex_bounded(gva, 0);
            lemma_pageindex_bounded(gva, 1);
            lemma_pageindex_bounded(gva, 2);
            self.lemma_walk3_levels(root, gva);
        }
        let mut pt: usize = pagetable;
        let mut level: u32 = 0;
        while level <= 2
            invariant
                self.wf(),
                pagetable < NPAGES,
                self.lvl(pagetable as int) == 4,
                0 <= perm < 0x1000,
                level <= 3,
                pt < NPAGES,
                self.lvl(pt as int) == 4 - level,
                level == 0 ==> pt == pagetable,
                level == 1 ==> {
                    &&& pte_present(self.entry(root, spec_pageindex(gva, 0)))
                    &&& spec_pte_pn(self.entry(root, spec_pageindex(gva, 0))) == pt
                },
                level == 2 ==> {
                    &&& pte_present(self.entry(root, spec_pageindex(gva, 0)))
                    &&& pte_present(
                        self.entry(
                            spec_pte_pn(self.entry(root, spec_pageindex(gva, 0))),
                            spec_pageindex(gva, 1),
                        ),
                    )
                    &&& spec_pte_pn(
                        self.entry(
                            spec_pte_pn(self.entry(root, spec_pageindex(gva, 0))),
                            spec_pageindex(gva, 1),
                        ),
                    ) == pt
                },
                level == 3 ==> self.spec_walk3(root, gva) == Some(pt as int),
                root == pagetable as int,
                gva == va as u64,
            decreases 3 - level,
        {
            proof {
                lemma_pageindex_bounded(gva, level as int);
            }
            let i = pageindex(va, level);
            let e = self.tables[pt].entry[i];
            if !entry_present(e) {
                return -1;
            }
            proof {
                // a well-formed tree gives every traversed entry the full
                // Present | Writable | User bits, so the permission checks
                // below never reject
                assert(spec_pte_flags(e) == 7);
                assert(e & 2u64 != 0 && e & 4u64 != 0) by (bit_vector)
                    requires
                        e & 0xFFF == 7u64,
                ;
            }
            if perm as u64 & PTE_W != 0 && e & PTE_W == 0 {
                return -1;
            }
            if perm as u64 & PTE_U != 0 && e & PTE_U == 0 {
                return -1;
            }
            proof {
                lemma_pte_addr_pn(e);
                assert(0 <= spec_pte_pn(e) < 512);
                assert(self.lvl(spec_pte_pn(e)) == self.lvl(pt as int) - 1);
            }
            pt = (pte_addr(e) / PAGESIZE as u64) as usize;
            level = level + 1;
        }
        pt as i32
    }

    /// One level of the allocating walk: follow the entry at `level` of
    /// table `pt`, creating a fresh kernel-owned table page when the entry
    /// is absent.  Returns the page number of the next table down, or -1
    /// exactly when a fresh table was needed and no free page remains.
    #[verifier::rlimit(50)]
    fn walk_step(&mut self, pt: usize, va: usize, level: u32) -> (r: i32)
        requires
            old(self).wf(),
            pt < NPAGES,
            level <= 2,
            old(self).lvl(pt as int) == 4 - level,
        ensures
            final(self).wf(),
            final(self).same_mem(*old(self)),
            final(self).same_procs(*old(self)),
            final(self).same_console(*old(self)),
            final(self).pageinfo_monotone(*old(self)),
            final(self).levels_monotone(*old(self)),
            final(self).tables_preserve(*old(self)),
            r >= 0 ==> {
                &&& 0 <= r < NPAGES
                &&& final(self).lvl(r as int) == 3 - level
                &&& pte_present(
                    final(self).entry(pt as int, spec_pageindex(va as u64, level as int)),
                )
                &&& spec_pte_pn(
                    final(self).entry(pt as int, spec_pageindex(va as u64, level as int)),
                ) == r
            },
            r < 0 ==> r == -1 && !final(self).spec_has_free_page(),
            pte_present(old(self).entry(pt as int, spec_pageindex(va as u64, level as int))) ==> {
                &&& r >= 0
                &&& final(self).same_pageinfo(*old(self))
                &&& final(self).same_vm(*old(self))
            },
            forall|root: int, w: u64|
                #![trigger final(self).spec_mapped(root, w)]
                #![trigger final(self).spec_leaf(root, w)]
                0 <= root < NPAGES && old(self).lvl(root) == 4 ==> {
                    &&& final(self).spec_mapped(root, w) == old(self).spec_mapped(root, w)
                    &&& (old(self).spec_mapped(root, w) ==> final(self).spec_leaf(root, w) == old(
                        self,
                    ).spec_leaf(root, w))
                },
    {
        proof {
            lemma_pageindex_bounded(va as u64, level as int);
        }
        let i = pageindex(va, level);
        let e = self.tables[pt].entry[i];
        if entry_present(e) {
            proof {
                lemma_pte_addr_pn(e);
                assert(0 <= spec_pte_pn(e) < 512);
                assert(self.lvl(spec_pte_pn(e)) == self.lvl(pt as int) - 1);
            }
            let child = (pte_addr(e) / PAGESIZE as u64) as usize;
            proof {
                assert(child == spec_pte_pn(e));
                assert(self.lvl(child as int) == 3 - level);
                assert(pte_present(self.entry(pt as int, spec_pageindex(va as u64, level as int))));
            }
            return child as i32;
        }
        let pa = self.palloc(-2);
        if pa < 0 {
            return -1;
        }
        let ghost k1 = *self;
        let npn = pa as usize / PAGESIZE;
        proof {
            // the fresh page was free, so it is not a table page and no
            // present entry points at it
            assert(old(self).lvl(npn as int) == 0) by {
                if old(self).table_level@[npn as int] >= 1 {
                    assert(old(self).pageinfo@[npn as int].refcount > 0);
                }
            };
            assert(old(self).lvl(pt as int) >= 2);
            assert(old(self).pageinfo@[pt as int].refcount > 0);
            assert(npn != pt);
        }
        self.tables[npn] = x86_64_pagetable::new();
        self.table_level = Ghost(self.table_level@.update(npn as int, 3 - level as int));
        let ev = ((npn * PAGESIZE) as u64) | 7;
        self.tables[pt].entry[i] = ev;
        proof {
            let k0 = *old(self);
            let kf = *self;
            let n = npn as int;
            let p = pt as int;
            let ii = i as int;
            assert(ev >> 12 == npn as u64 && ev & 0xFFF == 7 && ev & 1 == 1) by (bit_vector)
                requires
                    ev == ((npn * 4096) as u64) | 7,
                    npn < 512,
            ;
            assert(spec_pte_pn(ev) == n && spec_pte_flags(ev) == 7 && pte_present(ev));
            // every cell except the written one keeps its value, and the
            // fresh table holds only zeros
            assert(forall|t: int, j: int|
                0 <= t < NPAGES && 0 <= j < 512 && t != n && !(t == p && j == ii)
                    ==> #[trigger] kf.tables@[t].entry@[j] == k0.tables@[t].entry@[j]);
            assert(forall|j: int| 0 <= j < 512 ==> #[trigger] kf.tables@[n].entry@[j] == 0);
            // the fresh page had no entries before either
            assert(forall|j: int| 0 <= j < 512 ==> #[trigger] k0.tables@[n].entry@[j] == 0);
            // no present entry of the old state points at the fresh page
            assert forall|t: int, j: int|
                0 <= t < NPAGES && 0 <= j < 512 && k0.lvl(t) >= 2 && pte_present(
                    #[trigger] k0.tables@[t].entry@[j],
                ) implies spec_pte_pn(k0.tables@[t].entry@[j]) != n by {
                assert(k0.lvl(spec_pte_pn(k0.tables@[t].entry@[j])) == k0.lvl(t) - 1);
            }
            assert(0u64 & 1 == 0) by (bit_vector);
            assert(kf.wf_lens());
            assert(kf.wf_pageinfo());
            assert(forall|q: int|
                0 <= q < NPAGES && q != n ==> #[trigger] kf.table_level@[q]
                    == k0.table_level@[q]);
            assert(kf.lvl(n) == 3 - level && 1 <= kf.lvl(n) <= 3);
            assert(forall|q: int|
                0 <= q < NPAGES ==> (#[trigger] kf.pageinfo@[q]).refcount
                    >= k0.pageinfo@[q].refcount);
            assert forall|t: int, j: int|
                0 <= t < NPAGES && 0 <= j < 512 && kf.lvl(t) >= 2 && pte_present(
                    #[trigger] kf.tables@[t].entry@[j],
                ) implies {
                &&& 0 <= spec_pte_pn(kf.tables@[t].entry@[j]) < NPAGES
                &&& kf.lvl(spec_pte_pn(kf.tables@[t].entry@[j])) == kf.lvl(t) - 1
                &&& spec_pte_flags(kf.tables@[t].entry@[j]) == 7
            } by {
                if t == n {
                    assert(kf.tables@[t].entry@[j] == 0);
                } else if t == p && j == ii {
                    assert(kf.tables@[t].entry@[j] == ev);
                } else {
                    assert(kf.tables@[t].entry@[j] == k0.tables@[t].entry@[j]);
                    let child = spec_pte_pn(k0.tables@[t].entry@[j]);
                    assert(k0.lvl(child) == k0.lvl(t) - 1);
                    assert(child != n);
                }
            }
            assert forall|t: int, j: int|
                0 <= t < NPAGES && 0 <= j < 512 && kf.lvl(t) == 1 implies 0 <= spec_pte_pn(
                #[trigger] kf.tables@[t].entry@[j],
            ) < NPAGES by {
                if t == n {
                    assert(kf.tables@[t].entry@[j] == 0);
                    assert(0u64 >> 12 == 0) by (bit_vector);
                } else {
                    assert(kf.tables@[t].entry@[j] == k0.tables@[t].entry@[j]);
                }
            }
            assert forall|t: int, j: int|
                0 <= t < NPAGES && 0 <= j < 512 && kf.lvl(t) == 0 implies (
            #[trigger] kf.tables@[t].entry@[j]) == 0 by {
                assert(t != n && !(t == p && j == ii));
                assert(kf.tables@[t].entry@[j] == k0.tables@[t].entry@[j]);
            }
            assert forall|t1: int, j1: int, t2: int, j2: int|
                0 <= t1 < NPAGES && 0 <= j1 < 512 && 0 <= t2 < NPAGES && 0 <= j2 < 512
                    && kf.lvl(t1) >= 2 && kf.lvl(t2) >= 2 && pte_present(
                    #[trigger] kf.tables@[t1].entry@[j1],
                ) && pte_present(#[trigger] kf.tables@[t2].entry@[j2]) && (t1 != t2 || j1
                    != j2) implies spec_pte_pn(kf.tables@[t1].entry@[j1]) != spec_pte_pn(
                kf.tables@[t2].entry@[j2],
            ) by {
                if t1 == n || t2 == n {
                    // the fresh table holds no present entries
                } else if t1 == p && j1 == ii {
                    assert(kf.tables@[t2].entry@[j2] == k0.tables@[t2].entry@[j2]);
                    assert(spec_pte_pn(k0.tables@[t2].entry@[j2]) != n);
                } else if t2 == p && j2 == ii {
                    assert(kf.tables@[t1].entry@[j1] == k0.tables@[t1].entry@[j1]);
                    assert(spec_pte_pn(k0.tables@[t1].entry@[j1]) != n);
                } else {
                    assert(kf.tables@[t1].entry@[j1] == k0.tables@[t1].entry@[j1]);
                    assert(kf.tables@[t2].entry@[j2] == k0.tables@[t2].entry@[j2]);
                }
            }
            assert(kf.wf_levels());
            assert(kf.wf_processes());
            // no translation changes: the one written cell was absent, and
            // any walk that newly crosses it lands in the all-zero table
            assert forall|root: int, w: u64|
                0 <= root < NPAGES && k0.lvl(root) == 4 implies {
                &&& kf.spec_mapped(root, w) == k0.spec_mapped(root, w)
                &&& (k0.spec_mapped(root, w) ==> kf.spec_leaf(root, w) == k0.spec_leaf(root, w))
            } by {
                lemma_pageindex_bounded(w, 0);
                lemma_pageindex_bounded(w, 1);
                lemma_pageindex_bounded(w, 2);
                lemma_pageindex_bounded(w, 3);
                k0.lemma_walk3_levels(root, w);
                let i0 = spec_pageindex(w, 0);
                let i1w = spec_pageindex(w, 1);
                let i2w = spec_pageindex(w, 2);
                let i3w = spec_pageindex(w, 3);
                assert(root != n);
                if k0.spec_walk3(root, w) is Some {
                    let e0 = k0.entry(root, i0);
                    let t1 = spec_pte_pn(e0);
                    let e1 = k0.entry(t1, i1w);
                    let t2 = spec_pte_pn(e1);
                    let lw = spec_pte_pn(k0.entry(t2, i2w));
                    assert(kf.entry(root, i0) == e0);
                    assert(kf.entry(t1, i1w) == e1);
                    assert(kf.entry(t2, i2w) == k0.entry(t2, i2w));
                    assert(kf.spec_walk3(root, w) == Some(lw));
                    assert(k0.lvl(lw) == 1 && lw != n && lw != p);
                    assert(kf.entry(lw, i3w) == k0.entry(lw, i3w));
                } else {
                    let e0 = k0.entry(root, i0);
                    if pte_present(e0) {
                        let t1 = spec_pte_pn(e0);
                        assert(kf.entry(root, i0) == e0);
                        assert(k0.lvl(t1) == 3 && t1 != n);
                        let e1 = k0.entry(t1, i1w);
                        if pte_present(e1) {
                            let t2 = spec_pte_pn(e1);
                            assert(kf.entry(t1, i1w) == e1);
                            assert(k0.lvl(t2) == 2 && t2 != n);
                            let e2 = k0.entry(t2, i2w);
                            assert(!pte_present(e2));
                            if t2 == p && i2w == ii {
                                assert(kf.entry(t2, i2w) == ev);
                                assert(kf.spec_walk3(root, w) == Some(n));
                                assert(kf.entry(n, i3w) == 0);
                                assert(!kf.spec_mapped(root, w));
                            } else {
                                assert(kf.entry(t2, i2w) == e2);
                                assert(kf.spec_walk3(root, w) is None);
                            }
                        } else {
                            if t1 == p && i1w == ii {
                                assert(kf.entry(t1, i1w) == ev);
                                assert(kf.entry(n, i2w) == 0);
                                assert(kf.spec_walk3(root, w) is None);
                            } else {
                                assert(kf.entry(t1, i1w) == e1);
                                assert(kf.spec_walk3(root, w) is None);
                            }
                        }
                    } else {
                        if root == p && i0 == ii {
                            assert(kf.entry(root, i0) == ev);
                            assert(kf.entry(n, i1w) == 0);
                            assert(kf.spec_walk3(root, w) is None);
                        } else {
                            assert(kf.entry(root, i0) == e0);
                            assert(kf.spec_walk3(root, w) is None);
                        }
                    }
                }
            }
        }
        npn as i32
    }

    /// Frame predicates compose across successive operations.
    proof fn lemma_preserve_trans(k0: Kernel, k1: Kernel, k2: Kernel)
        requires
            k1.pageinfo_monotone(k0),
            k2.pageinfo_monotone(k1),
            k1.levels_monotone(k0),
            k2.levels_monotone(k1),
            k1.tables_preserve(k0),
            k2.tables_preserve(k1),
        ensures
            k2.pageinfo_monotone(k0),
            k2.levels_monotone(k0),
            k2.tables_preserve(k0),
    {
        assert forall|t: int, i: int|
            0 <= t < NPAGES && 0 <= i < 512 && pte_present(k0.tables@[t].entry@[i]) implies (
        #[trigger] k2.tables@[t].entry@[i]) == k0.tables@[t].entry@[i] by {
            assert(k1.tables@[t].entry@[i] == k0.tables@[t].entry@[i]);
        }
        assert forall|t: int|
            0 <= t < NPAGES && k0.table_level@[t] == 1 implies (#[trigger] k2.tables@[t])
            == k0.tables@[t] by {
            assert(k1.table_level@[t] == 1);
            assert(k1.tables@[t] == k0.tables@[t]);
        }
    }

    /// Walk the three upper levels for `va`, creating missing intermediate
    /// tables from the physical page allocator, owned by the kernel.
    /// Returns the page number of the last-level table, or -1 exactly when
    /// a table had to be created and no free page remains; tables created
    /// before the failure stay in place.
    fn walk_alloc(&mut self, pagetable: usize, va: usize) -> (r: i32)
        requires
            old(self).wf(),
            pagetable < NPAGES,
            old(self).lvl(pagetable as int) == 4,
        ensures
            final(self).wf(),
            final(self).same_mem(*old(self)),
            final(self).same_procs(*old(self)),
            final(self).same_console(*old(self)),
            final(self).pageinfo_monotone(*old(self)),
            final(self).levels_monotone(*old(self)),
            final(self).tables_preserve(*old(self)),
            r >= 0 ==> {
                &&& 0 <= r < NPAGES
                &&& final(self).lvl(r as int) == 1
                &&& final(self).spec_walk3(pagetable as int, va as u64) == Some(r as int)
            },
            r < 0 ==> r == -1 && !final(self).spec_has_free_page(),
            old(self).spec_walk3(pagetable as int, va as u64) is Some ==> {
                &&& r >= 0
                &&& final(self).same_pageinfo(*old(self))
                &&& final(self).same_vm(*old(self))
            },
            forall|root: int, w: u64|
                #![trigger final(self).spec_mapped(root, w)]
                #![trigger final(self).spec_leaf(root, w)]
                0 <= root < NPAGES && old(self).lvl(root) == 4 ==> {
                    &&& final(self).spec_mapped(root, w) == old(self).spec_mapped(root, w)
                    &&& (old(self).spec_mapped(root, w) ==> final(self).spec_leaf(root, w) == old(
                        self,
                    ).spec_leaf(root, w))
                },
    {
        let ghost k0 = *old(self);
        let ghost gva = va as u64;
        proof {
            lemma_pageindex_bounded(gva, 0);
            lemma_pageindex_bounded(gva, 1);
            lemma_pageindex_bounded(gva, 2);
            k0.lemma_walk3_levels(pagetable as int, gva);
        }
        let r1 = self.walk_step(pagetable, va, 0);
        if r1 < 0 {
            return -1;
        }
        let t1 = r1 as usize;
        let ghost k1 = *self;
        let r2 = self.walk_step(t1, va, 1);
        if r2 < 0 {
            proof {
                Self::lemma_preserve_trans(k0, k1, *self);
                let kx = *self;
                assert forall|root: int, w: u64|
                    0 <= root < NPAGES && k0.lvl(root) == 4 implies {
                    &&& kx.spec_mapped(root, w) == k0.spec_mapped(root, w)
                    &&& (k0.spec_mapped(root, w) ==> kx.spec_leaf(root, w) == k0.spec_leaf(
                        root,
                        w,
                    ))
                } by {
                    assert(k1.lvl(root) == 4);
                    assert(k1.spec_mapped(root, w) == k0.spec_mapped(root, w));
                    assert(kx.spec_mapped(root, w) == k1.spec_mapped(root, w));
                }
            }
            return -1;
        }
        let t2 = r2 as usize;
        let ghost k2 = *self;
        let r3 = self.walk_step(t2, va, 2);
        let ghost k3 = *self;
        proof {
            Self::lemma_preserve_trans(k0, k1, k2);
            Self::lemma_preserve_trans(k0, k2, k3);
            assert forall|root: int, w: u64|
                0 <= root < NPAGES && k0.lvl(root) == 4 implies {
                &&& k3.spec_mapped(root, w) == k0.spec_mapped(root, w)
                &&& (k0.spec_mapped(root, w) ==> k3.spec_leaf(root, w) == k0.spec_leaf(root, w))
            } by {
                assert(k1.lvl(root) == 4);
                assert(k2.lvl(root) == 4);
                assert(k1.spec_mapped(root, w) == k0.spec_mapped(root, w));
                assert(k2.spec_mapped(root, w) == k1.spec_mapped(root, w));
                assert(k3.spec_mapped(root, w) == k2.spec_mapped(root, w));
            }
        }
        if r3 < 0 {
            return -1;
        }
        proof {
            // the chain written by the three steps is still present in the
            // final state, so the walk finds it
            assert(pte_present(k1.entry(pagetable as int, spec_pageindex(gva, 0))));
            assert(k3.entry(pagetable as int, spec_pageindex(gva, 0)) == k1.entry(
                pagetable as int,
                spec_pageindex(gva, 0),
            ));
            assert(pte_present(k2.entry(t1 as int, spec_pageindex(gva, 1))));
            assert(k3.entry(t1 as int, spec_pageindex(gva, 1)) == k2.entry(
                t1 as int,
                spec_pageindex(gva, 1),
            ));
            assert(pte_present(k3.entry(t2 as int, spec_pageindex(gva, 2))));
            assert(k3.spec_walk3(pagetable as int, gva) == Some(r3 as int));
            if k0.spec_walk3(pagetable as int, gva) is Some {
                assert(pte_present(k0.entry(pagetable as int, spec_pageindex(gva, 0))));
                assert(pte_present(k1.entry(t1 as int, spec_pageindex(gva, 1))));
                assert(pte_present(k2.entry(t2 as int, spec_pageindex(gva, 2))));
            }
        }
        r3
    }

    /// The first `count` pages of a range starting at `va` are mapped to
    /// the matching pages of the physical range at `pa` with permission
    /// `perm`.
    pub open spec fn mapped_prefix(
        self,
        pagetable: int,
        va: int,
        pa: int,
        perm: int,
        count: int,
    ) -> bool {
        forall|jj: int|
            #![trigger spec_page_va(va, jj)]
            0 <= jj < count ==> {
                &&& self.spec_walk3(pagetable, spec_page_va(va, jj)) is Some
                &&& self.spec_leaf(pagetable, spec_page_va(va, jj)) == ((pa + jj * 4096) as u64)
                    | (perm as u64)
            }
    }

    /// Map the virtual range `[va, va + sz)` to the physical range
    /// `[pa, pa + sz)` with permission `perm` in `pagetable`, page by page,
    /// creating intermediate tables on demand.  When `perm` lacks the
    /// Present bit the range is unmapped instead (`pa` is ignored) and the
    /// call cannot fail.  Returns 0 on success and -1 exactly when an
    /// intermediate table was needed and no free page remained; pages
    /// mapped before the failure stay mapped.
    #[verifier::loop_isolation(false)]
    #[verifier::rlimit(100)]
    pub fn virtual_memory_map(
        &mut self,
        pagetable: usize,
        va: usize,
        pa: usize,
        sz: usize,
        perm: i32,
    ) -> (r: i32)
        requires
            old(self).wf(),
            pagetable < NPAGES,
            old(self).lvl(pagetable as int) == 4,
            va % 4096 == 0,
            sz % 4096 == 0,
            va + sz <= 0x1_0000_0000_0000,
            va + sz <= usize::MAX,
            perm & 1 != 0 ==> pa % 4096 == 0 && pa + sz <= MEMSIZE_PHYSICAL,
            0 <= perm < 0x1000,
        ensures
            final(self).wf(),
            r == 0 || r == -1,
            final(self).lvl(pagetable as int) == 4,
            final(self).same_mem(*old(self)),
            final(self).same_procs(*old(self)),
            final(self).same_console(*old(self)),
            final(self).pageinfo_monotone(*old(self)),
            final(self).levels_monotone(*old(self)),
            perm & 1 == 0 ==> r == 0 && final(self).same_pageinfo(*old(self)),
            r == -1 ==> !final(self).spec_has_free_page(),
            // a failure rolls nothing back: some prefix of the range is
            // already mapped as requested and stays so
            r == -1 ==> exists|j: int|
                0 <= j <= sz / 4096 && #[trigger] final(self).mapped_prefix(
                    pagetable as int,
                    va as int,
                    pa as int,
                    perm as int,
                    j,
                ),
            (perm & 1 != 0 && forall|j: int|
                0 <= j < sz / 4096 ==> old(self).spec_walk3(
                    pagetable as int,
                    #[trigger] spec_page_va(va as int, j),
                ) is Some) ==> r == 0,
            r == 0 && perm & 1 != 0 ==> forall|j: int|
                #![trigger spec_page_va(va as int, j)]
                0 <= j < sz / 4096 ==> {
                    &&& final(self).spec_mapped(pagetable as int, spec_page_va(va as int, j))
                    &&& final(self).spec_leaf(pagetable as int, spec_page_va(va as int, j)) == (
                    (pa + j * 4096) as u64) | (perm as u64)
                    &&& final(self).spec_pn(pagetable as int, spec_page_va(va as int, j)) == (pa
                        + j * 4096) / 4096
                    &&& final(self).spec_pa(pagetable as int, spec_page_va(va as int, j)) == pa + j
                        * 4096
                    &&& final(self).spec_perm(pagetable as int, spec_page_va(va as int, j))
                        == perm
                },
            perm & 1 == 0 ==> forall|j: int|
                #![trigger spec_page_va(va as int, j)]
                0 <= j < sz / 4096 ==> !final(self).spec_mapped(
                    pagetable as int,
                    spec_page_va(va as int, j),
                ),
            forall|w: u64|
                #![trigger final(self).spec_mapped(pagetable as int, w)]
                #![trigger final(self).spec_leaf(pagetable as int, w)]
                w % 4096 == 0 && w < 0x1_0000_0000_0000 && !(va <= w < va + sz) ==> {
                    &&& final(self).spec_mapped(pagetable as int, w) == old(self).spec_mapped(
                        pagetable as int,
                        w,
                    )
                    &&& (old(self).spec_mapped(pagetable as int, w) ==> final(self).spec_leaf(
                        pagetable as int,
                        w,
                    ) == old(self).spec_leaf(pagetable as int, w))
                },
    {
        let ghost k0 = *old(self);
        let n = sz / PAGESIZE;
        let mut j: usize = 0;
        while j < n
            invariant
                self.wf(),
                self.lvl(pagetable as int) == 4,
                j <= n,
                self.same_mem(k0),
                self.same_procs(k0),
                self.same_console(k0),
                self.pageinfo_monotone(k0),
                self.levels_monotone(k0),
                perm & 1 == 0 ==> self.same_pageinfo(k0),
                forall|jj: int|
                    #![trigger spec_page_va(va as int, jj)]
                    0 <= jj < n && k0.spec_walk3(pagetable as int, spec_page_va(va as int, jj))
                        is Some ==> self.spec_walk3(pagetable as int, spec_page_va(va as int, jj))
                        == k0.spec_walk3(pagetable as int, spec_page_va(va as int, jj)),
                perm & 1 != 0 ==> forall|jj: int|
                    #![trigger spec_page_va(va as int, jj)]
                    0 <= jj < j ==> {
                        &&& self.spec_walk3(pagetable as int, spec_page_va(va as int, jj)) is Some
                        &&& self.spec_leaf(pagetable as int, spec_page_va(va as int, jj)) == ((pa
                            + jj * 4096) as u64) | (perm as u64)
                    },
                perm & 1 == 0 ==> forall|jj: int|
                    #![trigger spec_page_va(va as int, jj)]
                    0 <= jj < j ==> !self.spec_mapped(
                        pagetable as int,
                        spec_page_va(va as int, jj),
                    ),
                forall|w: u64|
                    #![trigger self.spec_mapped(pagetable as int, w)]
                    #![trigger self.spec_leaf(pagetable as int, w)]
                    w % 4096 == 0 && w < 0x1_0000_0000_0000 && !(va <= w < va + sz) ==> {
                        &&& self.spec_mapped(pagetable as int, w) == k0.spec_mapped(
                            pagetable as int,
                            w,
                        )
                        &&& (k0.spec_mapped(pagetable as int, w) ==> self.spec_leaf(
                            pagetable as int,
                            w,
                        ) == k0.spec_leaf(pagetable as int, w))
                    },
            decreases n - j,
        {
            let vaj = va + j * PAGESIZE;
            let ghost gvaj = spec_page_va(va as int, j as int);
            proof {
                assert(gvaj == vaj as u64);
                assert(vaj % 4096 == 0) by {
                    assert((va + j * 4096) % 4096 == 0) by (nonlinear_arith)
                        requires
                            va % 4096 == 0,
                    ;
                };
            }
            if perm & (PTE_P as i32) != 0 {
                let ghost s_pre = *self;
                let l1 = self.walk_alloc(pagetable, vaj);
                let ghost s_mid = *self;
                proof {
                    // earlier pages keep their translation across the
                    // allocating walk
                    assert forall|jj: int|
                        0 <= jj < n && s_pre.spec_walk3(
                            pagetable as int,
                            #[trigger] spec_page_va(va as int, jj),
                        ) is Some implies s_mid.spec_walk3(
                        pagetable as int,
                        spec_page_va(va as int, jj),
                    ) == s_pre.spec_walk3(pagetable as int, spec_page_va(va as int, jj)) by {
                        Self::lemma_walk_preserved(
                            s_pre,
                            s_mid,
                            pagetable as int,
                            spec_page_va(va as int, jj),
                        );
                    }
                    assert forall|jj: int|
                        0 <= jj < j implies s_mid.spec_leaf(
                        pagetable as int,
                        #[trigger] spec_page_va(va as int, jj),
                    ) == s_pre.spec_leaf(pagetable as int, spec_page_va(va as int, jj)) by {
                        let w = spec_page_va(va as int, jj);
                        s_pre.lemma_walk3_levels(pagetable as int, w);
                        lemma_pageindex_bounded(w, 3);
                        let l = s_pre.spec_walk3(pagetable as int, w)->Some_0;
                        assert(s_mid.tables@[l] == s_pre.tables@[l]);
                    }
                }
                if l1 < 0 {
                    proof {
                        assert(spec_page_va(va as int, j as int) == gvaj);
                        if k0.spec_walk3(pagetable as int, gvaj) is Some {
                            assert(s_pre.spec_walk3(pagetable as int, gvaj) is Some);
                        }
                        // the pages handled so far witness the mapped prefix
                        assert forall|jj: int| 0 <= jj < j implies {
                            &&& self.spec_walk3(
                                pagetable as int,
                                #[trigger] spec_page_va(va as int, jj),
                            ) is Some
                            &&& self.spec_leaf(pagetable as int, spec_page_va(va as int, jj))
                                == (((pa as int) + jj * 4096) as u64) | ((perm as int) as u64)
                        } by {
                            assert(self.spec_leaf(pagetable as int, spec_page_va(va as int, jj))
                                == ((pa + jj * 4096) as u64) | (perm as u64));
                        }
                        assert(self.mapped_prefix(
                            pagetable as int,
                            va as int,
                            pa as int,
                            perm as int,
                            j as int,
                        ));
                    }
                    return -1;
                }
                let i3 = pageindex(vaj, 3);
                let paj = pa + j * PAGESIZE;
                let ev = (paj as u64) | (perm as u64);
                let ghost l1i = l1 as int;
                proof {
                    assert((perm as u64) < 0x1000);
                    assert(ev >> 12 == (paj as u64) >> 12 && ev & 0xFFF == (perm as u64) && (paj
                        as u64) >> 12 < 512 && ((paj as u64) >> 12) * 4096 == paj) by (bit_vector)
                        requires
                            ev == (paj as u64) | (perm as u64),
                            (paj as u64) % 4096 == 0,
                            (paj as u64) < 0x200000,
                            (perm as u64) < 0x1000,
                    ;
                    assert(0 <= spec_pte_pn(ev) < NPAGES);
                }
                self.tables[l1 as usize].entry[i3] = ev;
                proof {
                    let s_post = *self;
                    Self::lemma_leaf_write(s_mid, s_post, l1i, i3 as int, ev);
                    assert(s_post.spec_walk3(pagetable as int, gvaj) == Some(l1i));
                    assert(s_post.spec_leaf(pagetable as int, gvaj) == ev);
                    // earlier pages are other cells: same table means same
                    // indices along the walk, and the last index differs
                    assert forall|jj: int|
                        0 <= jj < j implies s_post.spec_leaf(
                        pagetable as int,
                        #[trigger] spec_page_va(va as int, jj),
                    ) == s_mid.spec_leaf(pagetable as int, spec_page_va(va as int, jj)) by {
                        let w = spec_page_va(va as int, jj);
                        s_mid.lemma_walk3_levels(pagetable as int, w);
                        if s_mid.spec_walk3(pagetable as int, w) == Some(l1i)
                            && spec_pageindex(w, 3) == i3 as int {
                            s_mid.lemma_same_l1(pagetable as int, w, gvaj);
                            Self::lemma_pageindex_inject(w, gvaj);
                            assert(va + jj * 4096 < va + j * 4096) by (nonlinear_arith)
                                requires
                                    jj < j,
                            ;
                            assert(false);
                        }
                    }
                    assert(self.pageinfo_monotone(k0) && self.levels_monotone(k0));
                    assert(va <= va + j * 4096 && va + j * 4096 < va + sz) by (nonlinear_arith)
                        requires
                            0 <= j < n,
                            n == sz / 4096,
                            sz % 4096 == 0,
                    ;
                    assert forall|w: u64|
                        w % 4096 == 0 && w < 0x1_0000_0000_0000 && !(va <= w < va + sz) implies {
                        &&& s_post.spec_mapped(pagetable as int, w) == k0.spec_mapped(
                            pagetable as int,
                            w,
                        )
                        &&& (k0.spec_mapped(pagetable as int, w) ==> s_post.spec_leaf(
                            pagetable as int,
                            w,
                        ) == k0.spec_leaf(pagetable as int, w))
                    } by {
                        assert(s_pre.spec_mapped(pagetable as int, w) == k0.spec_mapped(
                            pagetable as int,
                            w,
                        ));
                        assert(s_mid.spec_mapped(pagetable as int, w) == s_pre.spec_mapped(
                            pagetable as int,
                            w,
                        ));
                        assert(s_post.spec_walk3(pagetable as int, w) == s_mid.spec_walk3(
                            pagetable as int,
                            w,
                        ));
                        s_mid.lemma_walk3_levels(pagetable as int, w);
                        if s_mid.spec_walk3(pagetable as int, w) == Some(l1i) && spec_pageindex(
                            w,
                            3,
                        ) == i3 as int {
                            s_mid.lemma_same_l1(pagetable as int, w, gvaj);
                            Self::lemma_pageindex_inject(w, gvaj);
                            assert(false);
                        }
                        assert(s_post.spec_leaf(pagetable as int, w) == s_mid.spec_leaf(
                            pagetable as int,
                            w,
                        ));
                        if s_pre.spec_mapped(pagetable as int, w) {
                            assert(s_mid.spec_leaf(pagetable as int, w) == s_pre.spec_leaf(
                                pagetable as int,
                                w,
                            ));
                        }
                    }
                }
            } else {
                let l1 = self.lookup_l1pagetable(pagetable, vaj, perm);
                if l1 >= 0 {
                    let i3 = pageindex(vaj, 3);
                    let ghost s_mid = *self;
                    let ghost l1i = l1 as int;
                    let ev = perm as u64;
                    proof {
                        assert(ev >> 12 == 0 && ev & 1 == 0) by (bit_vector)
                            requires
                                ev < 0x1000,
                                ev & 0x1 == (0 as u64),
                        ;
                        assert((perm as u64) & 1 == 0) by (bit_vector)
                            requires
                                perm & 1 == 0i32,
                                0 <= perm < 0x1000,
                        ;
                    }
                    self.tables[l1 as usize].entry[i3] = ev;
                    proof {
                        let s_post = *self;
                        Self::lemma_leaf_write(s_mid, s_post, l1i, i3 as int, ev);
                        assert(s_post.spec_walk3(pagetable as int, gvaj) == Some(l1i));
                        assert(s_post.spec_leaf(pagetable as int, gvaj) == ev);
                        assert(!pte_present(ev));
                        assert forall|jj: int|
                            0 <= jj < j implies s_post.spec_leaf(
                            pagetable as int,
                            #[trigger] spec_page_va(va as int, jj),
                        ) == s_mid.spec_leaf(pagetable as int, spec_page_va(va as int, jj)) by {
                            let w = spec_page_va(va as int, jj);
                            s_mid.lemma_walk3_levels(pagetable as int, w);
                            if s_mid.spec_walk3(pagetable as int, w) == Some(l1i)
                                && spec_pageindex(w, 3) == i3 as int {
                                s_mid.lemma_same_l1(pagetable as int, w, gvaj);
                                Self::lemma_pageindex_inject(w, gvaj);
                                assert(va + jj * 4096 < va + j * 4096) by (nonlinear_arith)
                                    requires
                                        jj < j,
                                ;
                                assert(false);
                            }
                        }
                        assert(va <= va + j * 4096 && va + j * 4096 < va + sz) by (
                        nonlinear_arith)
                            requires
                                0 <= j < n,
                                n == sz / 4096,
                                sz % 4096 == 0,
                        ;
                        assert forall|w: u64|
                            w % 4096 == 0 && w < 0x1_0000_0000_0000 && !(va <= w < va
                                + sz) implies {
                            &&& s_post.spec_mapped(pagetable as int, w) == k0.spec_mapped(
                                pagetable as int,
                                w,
                            )
                            &&& (k0.spec_mapped(pagetable as int, w) ==> s_post.spec_leaf(
                                pagetable as int,
                                w,
                            ) == k0.spec_leaf(pagetable as int, w))
                        } by {
                            assert(s_mid.spec_mapped(pagetable as int, w) == k0.spec_mapped(
                                pagetable as int,
                                w,
                            ));
                            assert(s_post.spec_walk3(pagetable as int, w) == s_mid.spec_walk3(
                                pagetable as int,
                                w,
                            ));
                            s_mid.lemma_walk3_levels(pagetable as int, w);
                            if s_mid.spec_walk3(pagetable as int, w) == Some(l1i)
                                && spec_pageindex(w, 3) == i3 as int {
                                s_mid.lemma_same_l1(pagetable as int, w, gvaj);
                                Self::lemma_pageindex_inject(w, gvaj);
                                assert(false);
                            }
                            assert(s_post.spec_leaf(pagetable as int, w) == s_mid.spec_leaf(
                                pagetable as int,
                                w,
                            ));
                        }
                    }
                }
            }
            j = j + 1;
        }
        proof {
            if perm & 1 != 0 {
                assert forall|jj: int| 0 <= jj < sz / 4096 implies {
                    &&& self.spec_mapped(
                        pagetable as int,
                        #[trigger] spec_page_va(va as int, jj),
                    )
                    &&& self.spec_pn(pagetable as int, spec_page_va(va as int, jj)) == (pa + jj
                        * 4096) / 4096
                    &&& self.spec_pa(pagetable as int, spec_page_va(va as int, jj)) == pa + jj
                        * 4096
                    &&& self.spec_perm(pagetable as int, spec_page_va(va as int, jj)) == perm
                } by {
                    let w = spec_page_va(va as int, jj);
                    let pj = (pa + jj * 4096) as u64;
                    let pv = perm as u64;
                    let lf = self.spec_leaf(pagetable as int, w);
                    assert(lf == pj | pv);
                    assert(0 <= pa + jj * 4096 && pa + jj * 4096 + 4096 <= MEMSIZE_PHYSICAL) by (
                    nonlinear_arith)
                        requires
                            0 <= jj < sz / 4096,
                            pa + sz <= MEMSIZE_PHYSICAL,
                            sz % 4096 == 0,
                    ;
                    assert(pj % 4096 == 0) by (nonlinear_arith)
                        requires
                            pa % 4096 == 0,
                            pj == (pa + jj * 4096) as u64,
                            0 <= pa + jj * 4096 < 0x200000,
                    ;
                    assert((pj | pv) & 1 == pv & 1 && (pj | pv) >> 12 == pj >> 12 && (pj | pv)
                        & 0xFFF == pv && ((pj >> 12) * 4096) == pj && pj >> 12 < 512) by (
                    bit_vector)
                        requires
                            pj % 4096 == 0,
                            pj < 0x200000,
                            pv < 0x1000,
                    ;
                    assert(pv & 1 == 1) by (bit_vector)
                        requires
                            perm & 1 != 0i32,
                            0 <= perm < 0x1000,
                            pv == perm as u64,
                    ;
                    assert(w % 4096 == 0) by (nonlinear_arith)
                        requires
                            va % 4096 == 0,
                            w == (va + jj * 4096) as u64,
                            0 <= va + jj * 4096 <= 0x1_0000_0000_0000,
                    ;
                }
            }
        }
        0
    }

    /// Allocate a fresh, empty root page table owned by `owner`.  Returns
    /// its page number, or -1 exactly when no free page remains.
    pub fn alloc_pagetable_root(&mut self, owner: i8) -> (r: i32)
        requires
            old(self).wf(),
            Kernel::spec_valid_owner(owner as int),
        ensures
            final(self).wf(),
            final(self).same_mem(*old(self)),
            final(self).same_procs(*old(self)),
            final(self).same_console(*old(self)),
            final(self).pageinfo_monotone(*old(self)),
            final(self).levels_monotone(*old(self)),
            final(self).tables_preserve(*old(self)),
            r >= 0 ==> {
                &&& 0 <= r < NPAGES
                &&& final(self).lvl(r as int) == 4
                &&& old(self).lvl(r as int) == 0
                &&& old(self).spec_has_free_page()
                &&& final(self).pageinfo@ == old(self).pageinfo@.update(
                    r as int,
                    PhysicalPageInfo { owner, refcount: 1i8 },
                )
                &&& forall|w: u64| !(#[trigger] final(self).spec_mapped(r as int, w))
            },
            r < 0 ==> r == -1 && final(self).same_pageinfo(*old(self))
                && !final(self).spec_has_free_page(),
            forall|root: int, w: u64|
                #![trigger final(self).spec_mapped(root, w)]
                #![trigger final(self).spec_leaf(root, w)]
                0 <= root < NPAGES && old(self).lvl(root) == 4 ==> {
                    &&& final(self).spec_mapped(root, w) == old(self).spec_mapped(root, w)
                    &&& (old(self).spec_mapped(root, w) ==> final(self).spec_leaf(root, w) == old(
                        self,
                    ).spec_leaf(root, w))
                },
    {
        let pa = self.palloc(owner);
        if pa < 0 {
            return -1;
        }
        let npn = pa as usize / PAGESIZE;
        proof {
            assert(old(self).lvl(npn as int) == 0) by {
                if old(self).table_level@[npn as int] >= 1 {
                    assert(old(self).pageinfo@[npn as int].refcount > 0);
                }
            };
        }
        self.tables[npn] = x86_64_pagetable::new();
        self.table_level = Ghost(self.table_level@.update(npn as int, 4));
        proof {
            let k0 = *old(self);
            let kf = *self;
            let n = npn as int;
            assert(0u64 & 1 == 0) by (bit_vector);
            assert(forall|t: int, j: int|
                0 <= t < NPAGES && 0 <= j < 512 && t != n ==> #[trigger] kf.tables@[t].entry@[j]
                    == k0.tables@[t].entry@[j]);
            assert(forall|j: int| 0 <= j < 512 ==> #[trigger] kf.tables@[n].entry@[j] == 0);
            assert(forall|j: int| 0 <= j < 512 ==> #[trigger] k0.tables@[n].entry@[j] == 0);
            assert forall|t: int, j: int|
                0 <= t < NPAGES && 0 <= j < 512 && k0.lvl(t) >= 2 && pte_present(
                    #[trigger] k0.tables@[t].entry@[j],
                ) implies spec_pte_pn(k0.tables@[t].entry@[j]) != n by {
                assert(k0.lvl(spec_pte_pn(k0.tables@[t].entry@[j])) == k0.lvl(t) - 1);
            }
            assert(kf.wf_lens());
            assert(kf.wf_pageinfo());
            assert(forall|q: int|
                0 <= q < NPAGES && q != n ==> #[trigger] kf.table_level@[q]
                    == k0.table_level@[q]);
            assert forall|t: int, j: int|
                0 <= t < NPAGES && 0 <= j < 512 && kf.lvl(t) >= 2 && pte_present(
                    #[trigger] kf.tables@[t].entry@[j],
                ) implies {
                &&& 0 <= spec_pte_pn(kf.tables@[t].entry@[j]) < NPAGES
                &&& kf.lvl(spec_pte_pn(kf.tables@[t].entry@[j])) == kf.lvl(t) - 1
                &&& spec_pte_flags(kf.tables@[t].entry@[j]) == 7
            } by {
                if t == n {
                    assert(kf.tables@[t].entry@[j] == 0);
                } else {
                    assert(kf.tables@[t].entry@[j] == k0.tables@[t].entry@[j]);
                    let child = spec_pte_pn(k0.tables@[t].entry@[j]);
                    assert(k0.lvl(child) == k0.lvl(t) - 1);
                    assert(child != n);
                }
            }
            assert forall|t1: int, j1: int, t2: int, j2: int|
                0 <= t1 < NPAGES && 0 <= j1 < 512 && 0 <= t2 < NPAGES && 0 <= j2 < 512
                    && kf.lvl(t1) >= 2 && kf.lvl(t2) >= 2 && pte_present(
                    #[trigger] kf.tables@[t1].entry@[j1],
                ) && pte_present(#[trigger] kf.tables@[t2].entry@[j2]) && (t1 != t2 || j1
                    != j2) implies spec_pte_pn(kf.tables@[t1].entry@[j1]) != spec_pte_pn(
                kf.tables@[t2].entry@[j2],
            ) by {
                assert(t1 != n && t2 != n);
                assert(kf.tables@[t1].entry@[j1] == k0.tables@[t1].entry@[j1]);
                assert(kf.tables@[t2].entry@[j2] == k0.tables@[t2].entry@[j2]);
            }
            assert(kf.wf_levels());
            assert(kf.wf_processes());
            // nothing is mapped under the fresh root, and no existing
            // translation moved
            assert forall|w: u64| !(#[trigger] kf.spec_mapped(n, w)) by {
                lemma_pageindex_bounded(w, 0);
                assert(kf.entry(n, spec_pageindex(w, 0)) == 0);
            }
            assert forall|root: int, w: u64|
                0 <= root < NPAGES && k0.lvl(root) == 4 implies {
                &&& kf.spec_mapped(root, w) == k0.spec_mapped(root, w)
                &&& (k0.spec_mapped(root, w) ==> kf.spec_leaf(root, w) == k0.spec_leaf(root, w))
            } by {
                lemma_pageindex_bounded(w, 0);
                lemma_pageindex_bounded(w, 1);
                lemma_pageindex_bounded(w, 2);
                lemma_pageindex_bounded(w, 3);
                k0.lemma_walk3_levels(root, w);
                assert(root != n);
                if k0.spec_walk3(root, w) is Some {
                    let e0 = k0.entry(root, spec_pageindex(w, 0));
                    let t1 = spec_pte_pn(e0);
                    let e1 = k0.entry(t1, spec_pageindex(w, 1));
                    let t2 = spec_pte_pn(e1);
                    let lw = spec_pte_pn(k0.entry(t2, spec_pageindex(w, 2)));
                    assert(t1 != n && t2 != n && lw != n);
                    assert(kf.spec_walk3(root, w) == k0.spec_walk3(root, w));
                    assert(kf.entry(lw, spec_pageindex(w, 3)) == k0.entry(
                        lw,
                        spec_pageindex(w, 3),
                    ));
                } else {
                    let e0 = k0.entry(root, spec_pageindex(w, 0));
                    if pte_present(e0) {
                        let t1 = spec_pte_pn(e0);
                        assert(t1 != n);
                        let e1 = k0.entry(t1, spec_pageindex(w, 1));
                        if pte_present(e1) {
                            let t2 = spec_pte_pn(e1);
                            assert(t2 != n);
                            assert(!pte_present(k0.entry(t2, spec_pageindex(w, 2))));
                            assert(kf.spec_walk3(root, w) is None);
                        } else {
                            assert(kf.spec_walk3(root, w) is None);
                        }
                    } else {
                        assert(kf.spec_walk3(root, w) is None);
                    }
                }
            }
        }
        npn as i32
    }

    /// Two states with the same page tables translate every address the
    /// same way.
    pub proof fn lemma_lookup_same_vm(k1: Kernel, k2: Kernel, root: int, w: u64)
        requires
            k2.tables@ == k1.tables@,
        ensures
            k2.spec_walk3(root, w) == k1.spec_walk3(root, w),
            k2.spec_leaf(root, w) == k1.spec_leaf(root, w),
            k2.spec_mapped(root, w) == k1.spec_mapped(root, w),
            k2.spec_pn(root, w) == k1.spec_pn(root, w),
            k2.spec_perm(root, w) == k1.spec_perm(root, w),
    {
    }

    /// Facts about the page start `(w >> 12) << 12` of an address `w` in a
    /// page-aligned region starting at `lo`.
    pub proof fn lemma_page_start(w: u64, lo: u64)
        requires
            lo % 4096 == 0,
            lo <= w,
        ensures
            ((w >> 12) << 12) >> 12 == w >> 12,
            ((w >> 12) << 12) % 4096 == 0,
            ((w >> 12) << 12) <= w,
            w < ((w >> 12) << 12) + 4096,
            lo <= ((w >> 12) << 12),
            ((w >> 12) << 12) <= w - w % 4096 + 4095,
    {
        assert(((w >> 12) << 12) >> 12 == w >> 12 && ((w >> 12) << 12) % 4096 == 0 && ((w >> 12)
            << 12) <= w && w < ((w >> 12) << 12) + 4096 && lo <= ((w >> 12) << 12) && ((w >> 12)
            << 12) <= w - w % 4096 + 4095) by (bit_vector)
            requires
                lo % 4096 == 0,
                lo <= w,
        ;
    }

    /// Two distinct addresses in the same page have distinct offsets.
    pub proof fn lemma_same_page_distinct_offset(b1: u64, b2: u64)
        requires
            b1 != b2,
            b1 >> 12 == b2 >> 12,
        ensures
            b1 % 4096 != b2 % 4096,
    {
        assert(b1 % 4096 != b2 % 4096) by (bit_vector)
            requires
                b1 != b2,
                b1 >> 12 == b2 >> 12,
        ;
    }

    /// An address within a page-aligned page shares that page's number.
    pub proof fn lemma_within_page(w: u64, a: u64)
        requires
            a % 4096 == 0,
            a <= w < a + 4096,
        ensures
            w >> 12 == a >> 12,
    {
        assert(w >> 12 == a >> 12) by (bit_vector)
            requires
                a % 4096 == 0,
                a <= w,
                w < a + 4096,
        ;
    }

    /// Two addresses in the same page walk through the same table cells,
    /// so they share one translation.
    pub proof fn lemma_same_page_lookup(self, root: int, b1: u64, b2: u64)
        requires
            b1 >> 12 == b2 >> 12,
        ensures
            self.spec_walk3(root, b1) == self.spec_walk3(root, b2),
            self.spec_leaf(root, b1) == self.spec_leaf(root, b2),
            self.spec_mapped(root, b1) == self.spec_mapped(root, b2),
            self.spec_pn(root, b1) == self.spec_pn(root, b2),
            self.spec_perm(root, b1) == self.spec_perm(root, b2),
    {
        assert((b1 >> 39) & 0x1FF == (b2 >> 39) & 0x1FF && (b1 >> 30) & 0x1FF == (b2 >> 30)
            & 0x1FF && (b1 >> 21) & 0x1FF == (b2 >> 21) & 0x1FF && (b1 >> 12) & 0x1FF == (b2
            >> 12) & 0x1FF) by (bit_vector)
            requires
                b1 >> 12 == b2 >> 12,
        ;
        assert(spec_pageindex(b1, 0) == spec_pageindex(b2, 0));
        assert(spec_pageindex(b1, 1) == spec_pageindex(b2, 1));
        assert(spec_pageindex(b1, 2) == spec_pageindex(b2, 2));
        assert(spec_pageindex(b1, 3) == spec_pageindex(b2, 3));
    }

    /// The entry read at `level` of the walk for `va` (following the
    /// walk's own page numbers, whether or not they are present).
    pub open spec fn spec_walk_entry(self, root: int, va: u64, level: int) -> u64
        decreases level,
    {
        if level <= 0 {
            self.entry(root, spec_pageindex(va, 0))
        } else {
            self.entry(
                spec_pte_pn(self.spec_walk_entry(root, va, level - 1)),
                spec_pageindex(va, level),
            )
        }
    }

    /// Permission monotonicity: the effective permission of a translation
    /// grants no Present, Writable or User bit that any of the four
    /// entries along the walk withholds.
    pub proof fn lemma_permission_monotonic(self, root: int, va: u64, b: u64)
        requires
            self.wf(),
            0 <= root < NPAGES,
            self.lvl(root) == 4,
            self.spec_mapped(root, va),
            b == PTE_P || b == PTE_W || b == PTE_U,
        ensures
            self.spec_perm(root, va) & b != 0 ==> forall|level: int|
                0 <= level <= 3 ==> #[trigger] self.spec_walk_entry(root, va, level) & b != 0,
    {
        self.lemma_walk3_levels(root, va);
        lemma_pageindex_bounded(va, 0);
        lemma_pageindex_bounded(va, 1);
        lemma_pageindex_bounded(va, 2);
        lemma_pageindex_bounded(va, 3);
        let e0 = self.spec_walk_entry(root, va, 0);
        let e1 = self.spec_walk_entry(root, va, 1);
        let e2 = self.spec_walk_entry(root, va, 2);
        let e3 = self.spec_walk_entry(root, va, 3);
        assert(spec_pte_flags(e0) == 7 && spec_pte_flags(e1) == 7 && spec_pte_flags(e2) == 7);
        assert(e3 == self.spec_leaf(root, va));
        if self.spec_perm(root, va) & b != 0 {
            assert forall|level: int| 0 <= level <= 3 implies #[trigger] self.spec_walk_entry(
                root,
                va,
                level,
            ) & b != 0 by {
                let e = self.spec_walk_entry(root, va, level);
                if level <= 2 {
                    assert(e & b != 0) by (bit_vector)
                        requires
                            e & 0xFFF == 7u64,
                            b == 1u64 || b == 2u64 || b == 4u64,
                    ;
                } else {
                    assert((e & 0xFFF) & b != 0 ==> e & b != 0) by (bit_vector)
                        requires
                            b == 1u64 || b == 2u64 || b == 4u64,
                    ;
                }
            }
        }
    }

    /// The byte a virtual address reaches through a root table.
    pub open spec fn spec_vm_read(self, root: int, va: u64) -> u8 {
        self.mem@[self.spec_pa(root, va)]
    }

    /// Read the byte at virtual address `va` under `pagetable`, or `None`
    /// when the address is unmapped.
    pub fn vm_read_byte(&self, pagetable: usize, va: usize) -> (r: Option<u8>)
        requires
            self.wf(),
            pagetable < NPAGES,
            self.lvl(pagetable as int) == 4,
        ensures
            r == if self.spec_mapped(pagetable as int, va as u64) {
                Some(self.spec_vm_read(pagetable as int, va as u64))
            } else {
                None::<u8>
            },
    {
        proof {
            self.lemma_walk3_levels(pagetable as int, va as u64);
        }
        let vam = self.virtual_memory_lookup(pagetable, va);
        if vam.pn < 0 {
            return None;
        }
        let pa = vam.pa as usize;
        Some(self.mem[pa])
    }

    /// Write `value` at virtual address `va` under `pagetable`.  Succeeds
    /// exactly when the address is mapped writable; on success only that
    /// one physical byte changes.
    pub fn vm_write_byte(&mut self, pagetable: usize, va: usize, value: u8) -> (r: bool)
        requires
            old(self).wf(),
            pagetable < NPAGES,
            old(self).lvl(pagetable as int) == 4,
        ensures
            final(self).wf(),
            r <==> old(self).spec_mapped(pagetable as int, va as u64) && old(self).spec_perm(
                pagetable as int,
                va as u64,
            ) & PTE_W != 0,
            r ==> final(self).mem@ == old(self).mem@.update(
                old(self).spec_pa(pagetable as int, va as u64),
                value,
            ),
            !r ==> final(self).same_mem(*old(self)),
            final(self).same_vm(*old(self)),
            final(self).same_pageinfo(*old(self)),
            final(self).same_procs(*old(self)),
            final(self).same_console(*old(self)),
    {
        proof {
            self.lemma_walk3_levels(pagetable as int, va as u64);
        }
        let vam = self.virtual_memory_lookup(pagetable, va);
        if vam.pn < 0 {
            return false;
        }
        if vam.perm as u64 & PTE_W == 0 {
            return false;
        }
        let pa = vam.pa as usize;
        self.mem[pa] = value;
        true
    }

    /// Process isolation: when two root tables translate the same virtual
    /// address to different physical pages, a write through the first is
    /// invisible to a read through the second.
    pub proof fn lemma_process_isolation(
        pre: Kernel,
        post: Kernel,
        root_a: int,
        root_b: int,
        va: u64,
        value: u8,
    )
        requires
            pre.wf(),
            0 <= root_a < NPAGES,
            pre.lvl(root_a) == 4,
            0 <= root_b < NPAGES,
            pre.lvl(root_b) == 4,
            pre.spec_mapped(root_a, va),
            pre.spec_mapped(root_b, va),
            pre.spec_pn(root_a, va) != pre.spec_pn(root_b, va),
            post.mem@ == pre.mem@.update(pre.spec_pa(root_a, va), value),
            post.tables@ == pre.tables@,
            post.table_level@ == pre.table_level@,
        ensures
            post.spec_pa(root_b, va) == pre.spec_pa(root_b, va),
            post.spec_vm_read(root_b, va) == pre.spec_vm_read(root_b, va),
    {
        pre.lemma_walk3_levels(root_a, va);
        pre.lemma_walk3_levels(root_b, va);
        assert(post.spec_walk3(root_b, va) == pre.spec_walk3(root_b, va));
        assert(post.spec_leaf(root_b, va) == pre.spec_leaf(root_b, va));
        let pn_a = pre.spec_pn(root_a, va);
        let pn_b = pre.spec_pn(root_b, va);
        let off = va as int % 4096;
        assert(pn_a * 4096 + off != pn_b * 4096 + off) by (nonlinear_arith)
            requires
                pn_a != pn_b,
        ;
    }
}

} // verus!
