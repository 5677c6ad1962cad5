//! Process lifecycle, the program loader, the scheduler, and the trap
//! dispatcher.

use weensyos::kernel::{
    Kernel, TrapAction, NPROC, P_FREE, P_RUNNABLE, P_BLOCKED, P_BROKEN, PROC_START_ADDR,
    PROC_SIZE,
};
use weensyos::x86_64::PAGESIZE;
use weensyos::x86_64::{
    x86_64_registers, INT_TIMER, INT_PAGEFAULT, INT_SYS_GETPID, INT_SYS_YIELD,
    INT_SYS_PAGE_ALLOC, INT_SYS_FORK, INT_SYS_EXIT, INT_SYS_MAPPING, INT_SYS_BRK, INT_SYS_PANIC,
    PFERR_USER, PFERR_WRITE, PTE_P, PTE_W, PTE_U,
};
use weensyos::elf::ElfProgram;
use weensyos::loader::PROGRAM_ENTRY;

fn trap_regs(intno: u64) -> x86_64_registers {
    let mut r = x86_64_registers::default();
    r.reg_intno = intno;
    r
}

#[test]
fn boot_without_command_loads_four_processes() {
    // the default program set fills slots 1 through 4, all Runnable
    let mut k = Kernel::new();
    assert_eq!(k.kernel(None), 0);
    for pid in 1..=4usize {
        assert_eq!(k.processes[pid].p_state, P_RUNNABLE);
        assert_eq!(k.processes[pid].p_registers.reg_rip, PROGRAM_ENTRY);
        assert_eq!(
            k.processes[pid].p_registers.reg_rsp,
            (PROC_START_ADDR + pid * PROC_SIZE) as u64
        );
    }
    for pid in 5..NPROC {
        assert_eq!(k.processes[pid].p_state, P_FREE);
    }
}

#[test]
fn schedule_cycles_round_robin() {
    // with four Runnable processes, process 1 runs first, then 2, 3, 4,
    // and back to 1
    let mut k = Kernel::new();
    assert_eq!(k.kernel(None), 0);
    let mut order = Vec::new();
    for _ in 0..6 {
        let next = k.schedule();
        assert!(next >= 0);
        order.push(next);
        k.run(next as usize);
    }
    assert_eq!(order, vec![1, 2, 3, 4, 1, 2]);
}

#[test]
fn schedule_with_nothing_runnable_idles() {
    let k = Kernel::new();
    assert_eq!(k.schedule(), -1);
}

#[test]
fn boot_commands_select_workloads() {
    let mut k = Kernel::new();
    assert_eq!(k.kernel(Some(&b"test2".to_vec())), 0);
    assert_eq!(k.processes[1].p_state, P_RUNNABLE);
    assert_eq!(k.processes[2].p_state, P_RUNNABLE);
    assert_eq!(k.processes[3].p_state, P_FREE);

    let mut k2 = Kernel::new();
    assert_eq!(k2.kernel(Some(&b"malloc".to_vec())), 0);
    assert_eq!(k2.processes[1].p_state, P_RUNNABLE);
    assert_eq!(k2.processes[2].p_state, P_FREE);
}

#[test]
fn loading_a_segment_places_file_bytes_and_zeroes() {
    // a writable segment with 100 file bytes and 200 memory bytes reads
    // back as the file bytes followed by zeroes
    let mut k = Kernel::new();
    assert_eq!(k.process_setup(1, 0), 0);
    let root = k.processes[1].p_pagetable;
    let mut image: Vec<u8> = Vec::new();
    for i in 0..100u8 {
        image.push(0xA0 ^ i);
    }
    let ph = ElfProgram {
        p_type: 1,
        p_flags: 6,  // read + write
        p_offset: 0,
        p_va: 0x180000,
        p_pa: 0,
        p_filesz: 100,
        p_memsz: 200,
        p_align: 0x1000,
    };
    assert_eq!(k.program_load_segment(1, &ph, &image), 0);
    for i in 0..100usize {
        assert_eq!(k.vm_read_byte(root, 0x180000 + i), Some(0xA0 ^ i as u8));
    }
    for i in 100..200usize {
        assert_eq!(k.vm_read_byte(root, 0x180000 + i), Some(0));
    }
    // the segment is writable and user-accessible
    let vam = k.virtual_memory_lookup(root, 0x180000);
    assert_eq!(vam.perm as u64, PTE_P | PTE_W | PTE_U);
}

#[test]
fn read_only_segment_is_hardened() {
    // a segment without the writable flag ends up Present | User only
    let mut k = Kernel::new();
    assert_eq!(k.process_setup(1, 0), 0);
    let root = k.processes[1].p_pagetable;
    let image: Vec<u8> = vec![1, 2, 3, 4];
    let ph = ElfProgram {
        p_type: 1,
        p_flags: 5,  // read + execute
        p_offset: 0,
        p_va: 0x190000,
        p_pa: 0,
        p_filesz: 4,
        p_memsz: 8,
        p_align: 0x1000,
    };
    assert_eq!(k.program_load_segment(1, &ph, &image), 0);
    let vam = k.virtual_memory_lookup(root, 0x190000);
    assert_eq!(vam.perm as u64, PTE_P | PTE_U);
    assert_eq!(k.vm_read_byte(root, 0x190001), Some(2));
    assert_eq!(k.vm_read_byte(root, 0x190006), Some(0));
}

#[test]
fn load_program_rejects_bad_number() {
    let mut k = Kernel::new();
    k.process_init(1, 0);
    assert_eq!(k.processes[1].p_state, P_BLOCKED);
    assert_eq!(k.load_program(1, 99), -1);
    assert_eq!(k.process_setup(1, 99), -1);
    assert_eq!(k.processes[1].p_state, P_BLOCKED);
}

#[test]
fn processes_share_no_frames() {
    // the same program loaded twice lands in different physical frames,
    // and writes through one space stay invisible in the other
    let mut k = Kernel::new();
    assert_eq!(k.process_setup(1, 0), 0);
    assert_eq!(k.process_setup(2, 0), 0);
    let ra = k.processes[1].p_pagetable;
    let rb = k.processes[2].p_pagetable;
    let va = 0x100000usize;
    let a = k.virtual_memory_lookup(ra, va);
    let b = k.virtual_memory_lookup(rb, va);
    assert!(a.pn >= 0 && b.pn >= 0);
    assert_ne!(a.pn, b.pn);
    let before = k.vm_read_byte(rb, va).unwrap();
    assert!(k.vm_write_byte(ra, va, before.wrapping_add(1)));
    assert_eq!(k.vm_read_byte(rb, va), Some(before));
}

#[test]
fn timer_interrupt_counts_and_reschedules() {
    let mut k = Kernel::new();
    assert_eq!(k.kernel(None), 0);
    k.run(1);
    let a = k.exception(&trap_regs(INT_TIMER));
    assert!(matches!(a, TrapAction::Reschedule));
    assert_eq!(k.ticks, 1);
    assert_eq!(k.processes[1].p_state, P_RUNNABLE);
}

#[test]
fn getpid_returns_current_pid() {
    let mut k = Kernel::new();
    assert_eq!(k.kernel(None), 0);
    k.run(3);
    let a = k.exception(&trap_regs(INT_SYS_GETPID));
    assert!(matches!(a, TrapAction::Resume));
    assert_eq!(k.processes[3].p_registers.reg_rax, 3);
}

#[test]
fn yield_reschedules() {
    let mut k = Kernel::new();
    assert_eq!(k.kernel(None), 0);
    k.run(1);
    let a = k.exception(&trap_regs(INT_SYS_YIELD));
    assert!(matches!(a, TrapAction::Reschedule));
    assert_eq!(k.schedule(), 2);
}

#[test]
fn exit_frees_the_slot() {
    let mut k = Kernel::new();
    assert_eq!(k.kernel(None), 0);
    k.run(2);
    let a = k.exception(&trap_regs(INT_SYS_EXIT));
    assert!(matches!(a, TrapAction::Reschedule));
    assert_eq!(k.processes[2].p_state, P_FREE);
    // the scheduler now skips it
    assert_eq!(k.schedule(), 3);
}

#[test]
fn page_alloc_syscall_maps_a_page() {
    let mut k = Kernel::new();
    assert_eq!(k.kernel(None), 0);
    k.run(1);
    let mut regs = trap_regs(INT_SYS_PAGE_ALLOC);
    regs.reg_rdi = 0x160000;
    let a = k.exception(&regs);
    assert!(matches!(a, TrapAction::Resume));
    assert_eq!(k.processes[1].p_registers.reg_rax, 0);
    let vam = k.virtual_memory_lookup(k.processes[1].p_pagetable, 0x160000);
    assert_eq!(vam.pa, 0x160000);
    assert_eq!(vam.perm as u64, PTE_P | PTE_W | PTE_U);
    // a second request for the same page fails
    let a2 = k.exception(&regs);
    assert!(matches!(a2, TrapAction::Resume));
    assert_eq!(k.processes[1].p_registers.reg_rax, u64::MAX);
}

#[test]
fn mapping_syscall_reports_translation() {
    let mut k = Kernel::new();
    assert_eq!(k.kernel(None), 0);
    k.run(1);
    let mut regs = trap_regs(INT_SYS_MAPPING);
    regs.reg_rdi = PROGRAM_ENTRY;
    let a = k.exception(&regs);
    assert!(matches!(a, TrapAction::Resume));
    let r = &k.processes[1].p_registers;
    assert_ne!(r.reg_rax, u64::MAX);
    assert_eq!(r.reg_rcx, PTE_P | PTE_W | PTE_U);
    // an unmapped address reports the sentinel
    let mut regs2 = trap_regs(INT_SYS_MAPPING);
    regs2.reg_rdi = 0x2F0000;
    k.exception(&regs2);
    assert_eq!(k.processes[1].p_registers.reg_rax, u64::MAX);
    assert_eq!(k.processes[1].p_registers.reg_rcx, 0);
}

#[test]
fn brk_is_unimplemented() {
    let mut k = Kernel::new();
    assert_eq!(k.kernel(None), 0);
    k.run(1);
    let a = k.exception(&trap_regs(INT_SYS_BRK));
    assert!(matches!(a, TrapAction::Resume));
    assert_eq!(k.processes[1].p_registers.reg_rax, 0);
}

#[test]
fn user_page_fault_breaks_only_the_faulting_process() {
    // fault containment: the faulting process turns Broken, every other
    // Runnable process stays Runnable and keeps being scheduled
    let mut k = Kernel::new();
    assert_eq!(k.kernel(None), 0);
    k.run(1);
    let mut regs = trap_regs(INT_PAGEFAULT);
    regs.reg_err = PFERR_USER | PFERR_WRITE;
    let a = k.exception(&regs);
    assert!(matches!(a, TrapAction::Reschedule));
    assert_eq!(k.processes[1].p_state, P_BROKEN);
    for pid in 2..=4usize {
        assert_eq!(k.processes[pid].p_state, P_RUNNABLE);
    }
    assert_eq!(k.schedule(), 2);
    k.run(2);
    assert_eq!(k.schedule(), 3);
}

#[test]
fn kernel_page_fault_is_fatal() {
    let mut k = Kernel::new();
    assert_eq!(k.kernel(None), 0);
    k.run(1);
    let mut regs = trap_regs(INT_PAGEFAULT);
    regs.reg_err = PFERR_WRITE;  // no user-mode bit
    let a = k.exception(&regs);
    assert!(matches!(a, TrapAction::Fatal));
}

#[test]
fn panic_syscall_is_fatal() {
    let mut k = Kernel::new();
    assert_eq!(k.kernel(None), 0);
    k.run(1);
    assert!(matches!(k.exception(&trap_regs(INT_SYS_PANIC)), TrapAction::Fatal));
}

#[test]
fn unknown_trap_breaks_the_process() {
    let mut k = Kernel::new();
    assert_eq!(k.kernel(None), 0);
    k.run(4);
    let a = k.exception(&trap_regs(13));  // general protection fault
    assert!(matches!(a, TrapAction::Reschedule));
    assert_eq!(k.processes[4].p_state, P_BROKEN);
    assert_eq!(k.processes[1].p_state, P_RUNNABLE);
}

#[test]
fn fork_clones_the_current_process() {
    let mut k = Kernel::new();
    assert_eq!(k.kernel(None), 0);
    k.run(1);
    let mut regs = trap_regs(INT_SYS_FORK);
    regs.reg_rdi = 0x1234;
    let a = k.exception(&regs);
    assert!(matches!(a, TrapAction::Resume));
    let child = k.processes[1].p_registers.reg_rax;
    assert_eq!(child, 5);
    assert_eq!(k.processes[5].p_state, P_RUNNABLE);
    assert_eq!(k.processes[5].p_registers.reg_rax, 0);
    assert_eq!(k.processes[5].p_registers.reg_rdi, 0x1234);
    // the child has its own copy of the program
    let ra = k.processes[1].p_pagetable;
    let rc = k.processes[5].p_pagetable;
    let pa = k.virtual_memory_lookup(ra, PROGRAM_ENTRY as usize);
    let pc = k.virtual_memory_lookup(rc, PROGRAM_ENTRY as usize);
    assert!(pc.pn >= 0);
    assert_ne!(pa.pn, pc.pn);
    assert_eq!(
        k.vm_read_byte(ra, PROGRAM_ENTRY as usize),
        k.vm_read_byte(rc, PROGRAM_ENTRY as usize)
    );
}

#[test]
fn console_printf_writes_cells() {
    let mut k = Kernel::new();
    let text: Vec<u8> = vec![b'o', b'k'];
    let r = k.console_printf(160, 0x0700, &text);
    assert_eq!(r, 162);
    assert_eq!(k.cursorpos, 162);
    assert_eq!(k.console[160], 0x0700 | b'o' as u16);
    assert_eq!(k.console[161], 0x0700 | b'k' as u16);
    assert_eq!(k.console[162], 0);
    assert_eq!(PAGESIZE, 4096);
}

#[test]
fn timer_traps_drive_the_rotation() {
    // each process runs until its timer interrupt, then the next one is
    // scheduled: 1, 2, 3, 4, 1, ...
    let mut k = Kernel::new();
    assert_eq!(k.kernel(None), 0);
    let mut order = Vec::new();
    for _ in 0..5 {
        let next = k.schedule();
        assert!(next >= 0);
        order.push(next);
        k.run(next as usize);
        let a = k.exception(&trap_regs(INT_TIMER));
        assert!(matches!(a, TrapAction::Reschedule));
    }
    assert_eq!(order, vec![1, 2, 3, 4, 1]);
    assert_eq!(k.ticks, 5);
}

#[test]
fn commands_load_their_own_images() {
    // each image carries its number just past the entry point
    let mut k = Kernel::new();
    assert_eq!(k.kernel(Some(&b"malloc".to_vec())), 0);
    let r1 = k.processes[1].p_pagetable;
    assert_eq!(k.vm_read_byte(r1, PROGRAM_ENTRY as usize + 2), Some(1));

    let mut k2 = Kernel::new();
    assert_eq!(k2.kernel(Some(&b"test2".to_vec())), 0);
    let r2 = k2.processes[2].p_pagetable;
    assert_eq!(k2.vm_read_byte(r2, PROGRAM_ENTRY as usize + 2), Some(3));

    let mut k3 = Kernel::new();
    assert_eq!(k3.kernel(None), 0);
    for pid in 1..=4usize {
        let rp = k3.processes[pid].p_pagetable;
        assert_eq!(k3.vm_read_byte(rp, PROGRAM_ENTRY as usize + 2), Some(pid as u8 - 1));
    }
}

#[test]
fn setup_marks_ownership() {
    // the root table and the stack frame of a fresh process are recorded
    // as owned by its pid
    let mut k = Kernel::new();
    assert_eq!(k.process_setup(3, 0), 0);
    let root = k.processes[3].p_pagetable;
    assert_eq!(k.pageinfo[root].owner, 3);
    assert_eq!(k.pageinfo[root].refcount, 1);
    let stack_addr = PROC_START_ADDR + 3 * PROC_SIZE - PAGESIZE;
    let vam = k.virtual_memory_lookup(root, stack_addr);
    assert!(vam.pn >= 0);
    assert_eq!(vam.perm as u64, PTE_P | PTE_W | PTE_U);
    assert_eq!(k.pageinfo[vam.pn as usize].owner, 3);
}
