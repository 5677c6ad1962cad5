//! The physical page allocator and the virtual memory subsystem: page
//! assignment, mapping and lookup round trips, unmapping, and isolation
//! between address spaces.

use weensyos::kernel::{Kernel, PageOwner, NPAGES, MEMSIZE_PHYSICAL};
use weensyos::x86_64::PAGESIZE;
use weensyos::x86_64::{PTE_P, PTE_W, PTE_U};

#[test]
fn page_owner_values() {
    assert_eq!(PageOwner::PoFree.value(), 0);
    assert_eq!(PageOwner::PoReserved.value(), -1);
    assert_eq!(PageOwner::PoKernel.value(), -2);
}

#[test]
fn assign_rejects_bad_addresses() {
    let mut k = Kernel::new();
    // below the kernel footprint
    assert_eq!(k.assign_physical_page(0x50000, 1), -1);
    // inside the reserved I/O hole
    assert_eq!(k.assign_physical_page(0xB8000, 1), -1);
    // past the end of physical memory
    assert_eq!(k.assign_physical_page(0x200000, 1), -1);
    // not page-aligned
    assert_eq!(k.assign_physical_page(0x150800, 1), -1);
}

#[test]
fn assign_claims_a_free_page_once() {
    let mut k = Kernel::new();
    let r = k.assign_physical_page(0x150000, 3);
    assert_eq!(r, 0x150);
    // the same page cannot be claimed twice, by anyone
    assert_eq!(k.assign_physical_page(0x150000, 3), -1);
    assert_eq!(k.assign_physical_page(0x150000, 5), -1);
    // its neighbor is still free
    assert_eq!(k.assign_physical_page(0x151000, 5), 0x151);
}

#[test]
fn palloc_hands_out_distinct_pages() {
    let mut k = Kernel::new();
    let a = k.palloc(-2);
    let b = k.palloc(1);
    assert!(a >= 0 && b >= 0);
    assert_ne!(a, b);
    assert_eq!(a % 4096, 0);
    assert_eq!(b % 4096, 0);
}

#[test]
fn map_then_lookup_round_trip() {
    // mapping a range makes every page of it look up to the matching
    // physical address with the requested permission
    let mut k = Kernel::new();
    let root = k.kernel_pagetable;
    let perm = (PTE_P | PTE_W | PTE_U) as i32;
    let r = k.virtual_memory_map(root, 0x220000, 0x150000, 3 * PAGESIZE, perm);
    assert_eq!(r, 0);
    for j in 0..3usize {
        let vam = k.virtual_memory_lookup(root, 0x220000 + j * PAGESIZE);
        assert_eq!(vam.pa, (0x150000 + j * PAGESIZE) as u64);
        assert_eq!(vam.pn, (0x150 + j) as i32);
        assert_eq!(vam.perm, perm);
    }
    // an offset within a page carries over to the physical address
    let vam = k.virtual_memory_lookup(root, 0x220123);
    assert_eq!(vam.pa, 0x150123);
}

#[test]
fn unmap_clears_range() {
    // mapping with Present absent makes the range unmapped again
    let mut k = Kernel::new();
    let root = k.kernel_pagetable;
    let perm = (PTE_P | PTE_W | PTE_U) as i32;
    assert_eq!(k.virtual_memory_map(root, 0x220000, 0x150000, 2 * PAGESIZE, perm), 0);
    assert_eq!(k.virtual_memory_map(root, 0x220000, 0, 2 * PAGESIZE, 0), 0);
    for j in 0..2usize {
        let vam = k.virtual_memory_lookup(root, 0x220000 + j * PAGESIZE);
        assert_eq!(vam.pn, -1);
        assert_eq!(vam.pa, u64::MAX);
        assert_eq!(vam.perm, 0);
    }
}

#[test]
fn lookup_of_unmapped_address_is_unmapped() {
    let k = Kernel::new();
    let vam = k.virtual_memory_lookup(k.kernel_pagetable, 0x280000);
    assert_eq!(vam.pn, -1);
    assert_eq!(vam.perm, 0);
}

#[test]
fn lookup_l1pagetable_follows_the_tree() {
    let mut k = Kernel::new();
    let root = k.kernel_pagetable;
    // the boot identity mapping built the path for low addresses
    let l1 = k.lookup_l1pagetable(root, 0x1000, (PTE_P | PTE_W) as i32);
    assert!(l1 >= 0);
    // far outside anything mapped there is no last-level table
    let none = k.lookup_l1pagetable(root, 0x7F_0000_0000, PTE_P as i32);
    assert_eq!(none, -1);
}

#[test]
fn kernel_mapping_is_not_user_accessible() {
    // the boot mapping gives the kernel pages Present | Writable only,
    // while the console page is also User
    let k = Kernel::new();
    let vam = k.virtual_memory_lookup(k.kernel_pagetable, 0x40000);
    assert_eq!(vam.perm as u64, PTE_P | PTE_W);
    let console = k.virtual_memory_lookup(k.kernel_pagetable, 0xB8000);
    assert_eq!(console.perm as u64, PTE_P | PTE_W | PTE_U);
}

#[test]
fn map_fails_only_when_memory_runs_out() {
    let mut k = Kernel::new();
    // exhaust every free physical page
    let mut taken = 0usize;
    while k.palloc(-2) >= 0 {
        taken += 1;
        assert!(taken <= NPAGES);
    }
    // now a mapping that needs fresh intermediate tables must fail
    let r = k.virtual_memory_map(
        k.kernel_pagetable,
        0x40_0000_0000,
        0x150000,
        PAGESIZE,
        (PTE_P | PTE_W) as i32,
    );
    assert_eq!(r, -1);
    // clearing never allocates, so it still succeeds
    let rc = k.virtual_memory_map(k.kernel_pagetable, 0x40_0000_0000, 0, PAGESIZE, 0);
    assert_eq!(rc, 0);
}

#[test]
fn bytes_flow_through_mappings() {
    let mut k = Kernel::new();
    let root = k.kernel_pagetable;
    let perm = (PTE_P | PTE_W | PTE_U) as i32;
    assert_eq!(k.virtual_memory_map(root, 0x250000, 0x151000, PAGESIZE, perm), 0);
    assert!(k.vm_write_byte(root, 0x250007, 0xAB));
    assert_eq!(k.vm_read_byte(root, 0x250007), Some(0xAB));
    // the byte really lives in the mapped frame
    assert_eq!(k.mem[0x151007], 0xAB);
    // unmapped addresses refuse both
    assert_eq!(k.vm_read_byte(root, 0x260000), None);
    assert!(!k.vm_write_byte(root, 0x260000, 1));
}

#[test]
fn processes_with_distinct_frames_do_not_share_writes() {
    // two roots map the same virtual page to different frames: a write
    // through the first is invisible through the second
    let mut k = Kernel::new();
    let root_a = k.alloc_pagetable_root(-2);
    let root_b = k.alloc_pagetable_root(-2);
    assert!(root_a >= 0 && root_b >= 0);
    let (ra, rb) = (root_a as usize, root_b as usize);
    let perm = (PTE_P | PTE_W | PTE_U) as i32;
    assert_eq!(k.virtual_memory_map(ra, 0x200000, 0x150000, PAGESIZE, perm), 0);
    assert_eq!(k.virtual_memory_map(rb, 0x200000, 0x151000, PAGESIZE, perm), 0);
    assert!(k.vm_write_byte(rb, 0x200042, 7));
    assert!(k.vm_write_byte(ra, 0x200042, 0x55));
    assert_eq!(k.vm_read_byte(ra, 0x200042), Some(0x55));
    assert_eq!(k.vm_read_byte(rb, 0x200042), Some(7));
}

#[test]
fn read_only_mapping_refuses_writes() {
    let mut k = Kernel::new();
    let root = k.kernel_pagetable;
    let perm = (PTE_P | PTE_U) as i32;
    assert_eq!(k.virtual_memory_map(root, 0x250000, 0x151000, PAGESIZE, perm), 0);
    assert!(!k.vm_write_byte(root, 0x250000, 1));
    assert_eq!(k.vm_read_byte(root, 0x250000), Some(0));
    assert_eq!(MEMSIZE_PHYSICAL, 0x200000);
}

#[test]
fn lookup_permission_never_exceeds_the_walk() {
    // the effective permission equals the last-level entry's bits, and
    // its Present/Writable/User parts never exceed what every level of
    // the walk grants: a mapping made without Writable cannot be written
    let mut k = Kernel::new();
    let root = k.kernel_pagetable;
    let perm = (PTE_P | PTE_U | 32) as i32;  // Present | User | Accessed
    assert_eq!(k.virtual_memory_map(root, 0x230000, 0x152000, PAGESIZE, perm), 0);
    let vam = k.virtual_memory_lookup(root, 0x230000);
    assert_eq!(vam.perm, perm);
    assert_eq!(vam.perm as u64 & PTE_W, 0);
    assert!(!k.vm_write_byte(root, 0x230000, 9));
}
