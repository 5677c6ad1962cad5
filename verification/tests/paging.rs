//! Pure paging arithmetic, hardware value types, and ELF byte coding.

use weensyos::x86_64::{
    pagernumber, pageaddress, pageindex, pageoffset, page_offset, pte_addr, pte_flags,
    l1pageindex, l2pageindex, l3pageindex, l4pageindex, x86_64_pagetable, x86_64_registers,
    VAMapping, PAGESIZE, PTE_P, PTE_W, PTE_U,
};
use weensyos::elf::{
    parse_elf_header, parse_elf_program, push_le_u16, push_le_u32, push_le_u64, read_le_u16,
    read_le_u32, read_le_u64, ELF_MAGIC, ELF_PTYPE_LOAD,
};
use weensyos::aux::{rand, srand, BufferWriter, InterruptIndex, QemuExitCode, Color};
use weensyos::loader::program_image;

#[test]
fn page_number_and_address_are_inverse() {
    assert_eq!(pagernumber(0x1000), 1);
    assert_eq!(pagernumber(0x1FFF), 1);
    assert_eq!(pagernumber(0x2000), 2);
    assert_eq!(pageaddress(2), 0x2000);
    assert_eq!(pageaddress(pagernumber(0x5000)), 0x5000);
}

#[test]
fn pageindex_levels() {
    // the four 9-bit index fields of a virtual address
    let va = (3usize << 39) | (5usize << 30) | (7usize << 21) | (9usize << 12) | 0x123;
    assert_eq!(pageindex(va, 0), 3);
    assert_eq!(pageindex(va, 1), 5);
    assert_eq!(pageindex(va, 2), 7);
    assert_eq!(pageindex(va, 3), 9);
    assert_eq!(l4pageindex(va), 3);
    assert_eq!(l3pageindex(va), 5);
    assert_eq!(l2pageindex(va), 7);
    assert_eq!(l1pageindex(va), 9);
    assert_eq!(pageoffset(va), 0x123);
    assert_eq!(page_offset(va as u64), 0x123);
}

#[test]
fn pte_fields() {
    let e: u64 = 0x5000 | PTE_P | PTE_W | PTE_U;
    assert_eq!(pte_addr(e), 0x5000);
    assert_eq!(pte_flags(e), 7);
    assert_eq!(pte_flags(0x123F), 0x23F);
    assert_eq!(pte_addr(0x1238F7), 0x123000);
}

#[test]
fn fresh_pagetable_is_empty() {
    let t = x86_64_pagetable::new();
    assert_eq!(t.entry.len(), 512);
    for i in 0..512 {
        assert_eq!(t.entry[i], 0);
    }
}

#[test]
fn default_registers_are_zero() {
    let r = x86_64_registers::default();
    assert_eq!(r.reg_rax, 0);
    assert_eq!(r.reg_rip, 0);
    assert_eq!(r.reg_rsp, 0);
    assert_eq!(r.reg_rflags, 0);
}

#[test]
fn vamapping_default_is_unmapped() {
    let m = VAMapping::default();
    assert_eq!(m.pn, -1);
    assert_eq!(m.pa, u64::MAX);
    assert_eq!(m.perm, 0);
}

#[test]
fn le_roundtrip() {
    let mut v: Vec<u8> = Vec::new();
    push_le_u16(&mut v, 0xBEEF);
    push_le_u32(&mut v, 0xDEAD_BEEF);
    push_le_u64(&mut v, 0x0123_4567_89AB_CDEF);
    assert_eq!(v.len(), 14);
    assert_eq!(read_le_u16(&v, 0), 0xBEEF);
    assert_eq!(read_le_u32(&v, 2), 0xDEAD_BEEF);
    assert_eq!(read_le_u64(&v, 6), 0x0123_4567_89AB_CDEF);
    assert_eq!(v[0], 0xEF);
    assert_eq!(v[1], 0xBE);
}

#[test]
fn builtin_images_parse() {
    assert!(program_image(4).is_none());
    let img = program_image(0).unwrap();
    let h = parse_elf_header(&img).expect("valid header");
    assert_eq!(h.e_magic, ELF_MAGIC);
    assert_eq!(h.e_entry, 0x100000);
    assert_eq!(h.e_phoff, 64);
    assert_eq!(h.e_phnum, 1);
    let ph = parse_elf_program(&img, 64).expect("one segment");
    assert_eq!(ph.p_type, ELF_PTYPE_LOAD);
    assert_eq!(ph.p_va, 0x100000);
    assert_eq!(ph.p_filesz, 8);
    assert_eq!(ph.p_memsz, 16);
    assert_eq!(ph.p_offset, 120);
}

#[test]
fn parse_rejects_bad_magic() {
    let mut img = program_image(0).unwrap();
    img[0] = 0;
    assert!(parse_elf_header(&img).is_none());
    let short: Vec<u8> = vec![0x7F, b'E', b'L'];
    assert!(parse_elf_header(&short).is_none());
}

#[test]
fn rand_is_deterministic() {
    let mut s1: u64 = 0;
    let mut s2: u64 = 0;
    srand(&mut s1, 61);
    srand(&mut s2, 61);
    let a = rand(&mut s1);
    let b = rand(&mut s2);
    assert_eq!(a, b);
    assert!(a >= 0);
    let c = rand(&mut s1);
    assert_ne!(s1, s2);
    let d = rand(&mut s2);
    assert_eq!(c, d);
}

#[test]
fn buffer_writer_truncates() {
    let mut w = BufferWriter::new(vec![0u8; 4]);
    w.write_str("ab");
    assert_eq!(w.pos, 2);
    w.write_str("cdef");
    assert_eq!(w.pos, 4);
    assert_eq!(w.buffer, vec![b'a', b'b', b'c', b'd']);
}

#[test]
fn interrupt_and_exit_values() {
    assert_eq!(InterruptIndex::Timer.as_u8(), 32);
    assert_eq!(InterruptIndex::Keyboard.as_usize(), 33);
    assert_eq!(QemuExitCode::Success.value(), 0x10);
    assert_eq!(QemuExitCode::Failed.value(), 0x11);
    assert_eq!(Color::Black.value(), 0);
    assert_eq!(Color::White.value(), 15);
    assert_eq!(Color::Red.value(), 4);
    assert_eq!(PAGESIZE, 4096);
}
