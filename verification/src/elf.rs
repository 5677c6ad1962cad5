//! Structures and constants for ELF64 executable images, and the
//! little-endian byte-level readers that decode them from a raw image.

use vstd::prelude::*;

verus! {

pub const ELF_MAGIC: u32 = 0x464C457F;   // "\x7FELF" in little endian

// Values for ElfProgram::p_type
pub const ELF_PTYPE_LOAD: u32 = 1;

// Flag bits for ElfProgram::p_flags
pub const ELF_PFLAG_EXEC: u32 = 1;
pub const ELF_PFLAG_WRITE: u32 = 2;
pub const ELF_PFLAG_READ: u32 = 4;

// Values for ElfSection::s_type
pub const ELF_STYPE_NULL: u32 = 0;
pub const ELF_STYPE_PROGBITS: u32 = 1;
pub const ELF_STYPE_SYMTAB: u32 = 2;
pub const ELF_STYPE_STRTAB: u32 = 3;

// Values for ElfSection::s_name
pub const ELF_SNAME_UNDEF: u32 = 0;

// Sizes of the decoded structures in the image
pub const ELF_HEADER_SIZE: usize = 64;
pub const ELF_PROGRAM_SIZE: usize = 56;

/// ELF64 executable header.
pub struct ElfHeader {
    pub e_magic: u32,       // @0x00 must equal ELF_MAGIC
    pub e_type: u16,        // @0x10
    pub e_machine: u16,     // @0x12
    pub e_version: u32,     // @0x14
    pub e_entry: u64,       // @0x18 entry point: address of first instruction
    pub e_phoff: u64,       // @0x20 offset from the header to the first ElfProgram
    pub e_shoff: u64,       // @0x28 offset from the header to the first ElfSection
    pub e_flags: u32,       // @0x30
    pub e_ehsize: u16,      // @0x34
    pub e_phentsize: u16,   // @0x36 should equal ELF_PROGRAM_SIZE
    pub e_phnum: u16,       // @0x38 number of ElfPrograms
    pub e_shentsize: u16,   // @0x3a
    pub e_shnum: u16,       // @0x3c number of ElfSections
    pub e_shstrndx: u16,    // @0x3e
}

/// ELF64 program header: one loadable segment descriptor.
pub struct ElfProgram {
    pub p_type: u32,        // @0x00 see ELF_PTYPE above
    pub p_flags: u32,       // @0x04 see ELF_PFLAG above
    pub p_offset: u64,      // @0x08 offset from the header to the segment data
    pub p_va: u64,          // @0x10 virtual address to load data at
    pub p_pa: u64,          // @0x18 not used
    pub p_filesz: u64,      // @0x20 number of bytes of segment data
    pub p_memsz: u64,       // @0x28 number of bytes in memory (bytes past
                            //   p_filesz are initialized to zero)
    pub p_align: u64,       // @0x30
}

/// ELF64 section header.
pub struct ElfSection {
    pub s_name: u32,
    pub s_type: u32,
    pub s_flags: u64,
    pub s_addr: u64,
    pub s_offset: u64,
    pub s_size: u64,
    pub s_link: u32,
    pub s_info: u32,
    pub s_addralign: u64,
    pub s_entsize: u64,
}

/// The 16-bit little-endian value stored at `off`.
pub open spec fn spec_le_u16(s: Seq<u8>, off: int) -> int {
    s[off] + s[off + 1] * 0x100
}

/// The 32-bit little-endian value stored at `off`.
pub open spec fn spec_le_u32(s: Seq<u8>, off: int) -> int {
    s[off] + s[off + 1] * 0x100 + s[off + 2] * 0x1_0000 + s[off + 3] * 0x100_0000
}

/// The 64-bit little-endian value stored at `off`.
pub open spec fn spec_le_u64(s: Seq<u8>, off: int) -> int {
    spec_le_u32(s, off) + spec_le_u32(s, off + 4) * 0x1_0000_0000
}

/// Read a 16-bit little-endian value.
pub fn read_le_u16(image: &Vec<u8>, off: usize) -> (v: u16)
    requires
        off + 2 <= image@.len(),
    ensures
        v == spec_le_u16(image@, off as int),
{
    let _len: usize = image.len();
    image[off] as u16 + image[off + 1] as u16 * 0x100
}

/// Read a 32-bit little-endian value.
pub fn read_le_u32(image: &Vec<u8>, off: usize) -> (v: u32)
    requires
        off + 4 <= image@.len(),
    ensures
        v == spec_le_u32(image@, off as int),
{
    let _len: usize = image.len();
    image[off] as u32 + image[off + 1] as u32 * 0x100 + image[off + 2] as u32 * 0x1_0000
        + image[off + 3] as u32 * 0x100_0000
}

/// Read a 64-bit little-endian value.
pub fn read_le_u64(image: &Vec<u8>, off: usize) -> (v: u64)
    requires
        off + 8 <= image@.len(),
    ensures
        v == spec_le_u64(image@, off as int),
{
    let _len: usize = image.len();
    let lo = read_le_u32(image, off);
    let hi = read_le_u32(image, off + 4);
    lo as u64 + hi as u64 * 0x1_0000_0000
}

/// Append a 16-bit value to a byte image in little-endian order.
pub fn push_le_u16(image: &mut Vec<u8>, v: u16)
    ensures
        final(image)@.len() == old(image)@.len() + 2,
        spec_le_u16(final(image)@, old(image)@.len() as int) == v,
        forall|i: int| 0 <= i < old(image)@.len() ==> final(image)@[i] == old(image)@[i],
{
    proof {
        assert(v & 0xFF == v % 0x100 && (v >> 8) & 0xFF == (v / 0x100) % 0x100 && v / 0x100
            < 0x100) by (bit_vector);
    }
    image.push((v & 0xFF) as u8);
    image.push(((v >> 8) & 0xFF) as u8);
}

/// Append a 32-bit value to a byte image in little-endian order.
pub fn push_le_u32(image: &mut Vec<u8>, v: u32)
    ensures
        final(image)@.len() == old(image)@.len() + 4,
        spec_le_u32(final(image)@, old(image)@.len() as int) == v,
        forall|i: int| 0 <= i < old(image)@.len() ==> final(image)@[i] == old(image)@[i],
{
    proof {
        assert(v & 0xFF == v % 0x100 && (v >> 8) & 0xFF == (v / 0x100) % 0x100 && (v >> 16)
            & 0xFF == (v / 0x1_0000) % 0x100 && (v >> 24) & 0xFF == v / 0x100_0000 && v
            / 0x100_0000 < 0x100) by (bit_vector);
    }
    image.push((v & 0xFF) as u8);
    image.push(((v >> 8) & 0xFF) as u8);
    image.push(((v >> 16) & 0xFF) as u8);
    image.push(((v >> 24) & 0xFF) as u8);
}

/// Append a 64-bit value to a byte image in little-endian order.
pub fn push_le_u64(image: &mut Vec<u8>, v: u64)
    ensures
        final(image)@.len() == old(image)@.len() + 8,
        spec_le_u64(final(image)@, old(image)@.len() as int) == v,
        forall|i: int| 0 <= i < old(image)@.len() ==> final(image)@[i] == old(image)@[i],
{
    proof {
        assert(v & 0xFFFF_FFFF == v % 0x1_0000_0000 && (v >> 32) == v / 0x1_0000_0000 && v
            / 0x1_0000_0000 < 0x1_0000_0000) by (bit_vector);
    }
    let lo = (v & 0xFFFF_FFFF) as u32;
    let hi = (v >> 32) as u32;
    push_le_u32(image, lo);
    push_le_u32(image, hi);
}

/// Decode the executable header at the start of `image`.  Returns `None`
/// exactly when the image is too short or the magic number is wrong.
pub fn parse_elf_header(image: &Vec<u8>) -> (r: Option<ElfHeader>)
    ensures
        r is Some <==> image@.len() >= 64 && spec_le_u32(image@, 0) == ELF_MAGIC,
        r matches Some(h) ==> {
            &&& h.e_magic == ELF_MAGIC
            &&& h.e_type == spec_le_u16(image@, 0x10)
            &&& h.e_machine == spec_le_u16(image@, 0x12)
            &&& h.e_version == spec_le_u32(image@, 0x14)
            &&& h.e_entry == spec_le_u64(image@, 0x18)
            &&& h.e_phoff == spec_le_u64(image@, 0x20)
            &&& h.e_shoff == spec_le_u64(image@, 0x28)
            &&& h.e_flags == spec_le_u32(image@, 0x30)
            &&& h.e_ehsize == spec_le_u16(image@, 0x34)
            &&& h.e_phentsize == spec_le_u16(image@, 0x36)
            &&& h.e_phnum == spec_le_u16(image@, 0x38)
            &&& h.e_shentsize == spec_le_u16(image@, 0x3a)
            &&& h.e_shnum == spec_le_u16(image@, 0x3c)
            &&& h.e_shstrndx == spec_le_u16(image@, 0x3e)
        },
{
    if image.len() < ELF_HEADER_SIZE {
        return None;
    }
    let e_magic = read_le_u32(image, 0);
    if e_magic != ELF_MAGIC {
        return None;
    }
    Some(ElfHeader {
        e_magic,
        e_type: read_le_u16(image, 0x10),
        e_machine: read_le_u16(image, 0x12),
        e_version: read_le_u32(image, 0x14),
        e_entry: read_le_u64(image, 0x18),
        e_phoff: read_le_u64(image, 0x20),
        e_shoff: read_le_u64(image, 0x28),
        e_flags: read_le_u32(image, 0x30),
        e_ehsize: read_le_u16(image, 0x34),
        e_phentsize: read_le_u16(image, 0x36),
        e_phnum: read_le_u16(image, 0x38),
        e_shentsize: read_le_u16(image, 0x3a),
        e_shnum: read_le_u16(image, 0x3c),
        e_shstrndx: read_le_u16(image, 0x3e),
    })
}

/// Decode the program header stored at byte offset `off` of `image`.
/// Returns `None` exactly when the header does not fit in the image.
pub fn parse_elf_program(image: &Vec<u8>, off: usize) -> (r: Option<ElfProgram>)
    ensures
        r is Some <==> off + 56 <= image@.len(),
        r matches Some(ph) ==> {
            &&& ph.p_type == spec_le_u32(image@, off as int)
            &&& ph.p_flags == spec_le_u32(image@, off + 4)
            &&& ph.p_offset == spec_le_u64(image@, off + 8)
            &&& ph.p_va == spec_le_u64(image@, off + 0x10)
            &&& ph.p_pa == spec_le_u64(image@, off + 0x18)
            &&& ph.p_filesz == spec_le_u64(image@, off + 0x20)
            &&& ph.p_memsz == spec_le_u64(image@, off + 0x28)
            &&& ph.p_align == spec_le_u64(image@, off + 0x30)
        },
{
    if image.len() < ELF_PROGRAM_SIZE || off > image.len() - ELF_PROGRAM_SIZE {
        return None;
    }
    Some(ElfProgram {
        p_type: read_le_u32(image, off),
        p_flags: read_le_u32(image, off + 4),
        p_offset: read_le_u64(image, off + 8),
        p_va: read_le_u64(image, off + 0x10),
        p_pa: read_le_u64(image, off + 0x18),
        p_filesz: read_le_u64(image, off + 0x20),
        p_memsz: read_le_u64(image, off + 0x28),
        p_align: read_le_u64(image, off + 0x30),
    })
}

} // verus!
