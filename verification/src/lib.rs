//! A model of a small teaching operating-system kernel for one x86_64 CPU:
//! a physical page allocator, a four-level page-table walker and mapper,
//! a fixed process table with a round-robin scheduler, an ELF program
//! loader, and the trap dispatcher that ties them together.
//!
//! Hardware is modeled explicitly: physical memory is an arena of 4096-byte
//! page frames, page tables live in those frames and hold hardware-format
//! 64-bit entries, and the machine state is one `Kernel` value.  Everything
//! that decides or computes is verified; the thin binary around the library
//! performs the actual hardware transfers.

pub mod x86_64;
pub mod elf;
pub mod kernel;
pub mod vm;
pub mod loader;
pub mod aux;
