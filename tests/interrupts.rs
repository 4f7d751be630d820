use std::collections::VecDeque;

use kernel::address_space::AddressSpace;
use kernel::hhdm::HigherHalfDirectMap;
use kernel::exceptions::{
    DescriptorTable, PageFaultAction, PageFaultError, PageFaultReason, SelectorErrorCode,
    page_fault_action,
};
use kernel::gdt::{GenericSegmentDescriptor, GlobalDescriptorTable, PrivilegeLevel, SegmentSelector, standard_selectors};
use kernel::idt::{Entry, InterruptDescriptorTable};
use kernel::irq::{IrqOutcome, handle_irq};
use kernel::interrupts::{IrqRoute, Vector as IrqVector, route_irq};
use kernel::local_timer::{Error as TimerError, LocalTimer, TimerArm, measured_frequency, use_tsc_deadline};
use kernel::mapper::Mapper;
use kernel::params::parse;
use kernel::pmm::{EntryType, MemoryMapEntry, PhysicalMemoryManager};
use kernel::scheduling::{PREEMPTION_WAIT_MS, Scheduler};
use kernel::stopwatch::Stopwatch;
use kernel::syscall::{Error as SyscallError, Vector, covered_pages, klog_outcome, decode, demand_map_buffer, klog_line, klog_line_checked, result_registers};
use kernel::task::{InterruptStackFrame, Registers, Task};
use kernel::x2apic::{
    CommandError, InterruptAssertMode, InterruptCommand, InterruptDeliveryMode,
    InterruptDestination, InterruptDestinationMode, InterruptTriggerMode, LocalVector,
    TimerDivideConfiguration, TimerMode, x2Apic,
};

const IDLE_IP: u64 = 0xFFFF_FFFF_8000_1000;
const IDLE_SP: u64 = 0xFFFF_8000_0000_2000;

fn scheduler() -> Scheduler {
    let map = vec![
        MemoryMapEntry { base: 0x0, length: 0x9FC00, entry_type: EntryType::Usable },
        MemoryMapEntry { base: 0x100000, length: 0x7EF0000, entry_type: EntryType::Usable },
    ];
    let mut pmm = PhysicalMemoryManager::new(&map).unwrap();
    let hhdm = HigherHalfDirectMap::new(0xFFFF_8000_0000_0000).unwrap();
    Scheduler::new(&mut pmm, &hhdm).unwrap()
}

fn frame(ip: u64, rax: usize) -> (InterruptStackFrame, Registers) {
    let isf = InterruptStackFrame {
        instruction_pointer: ip,
        code_segment: 0x23,
        cpu_flags: 0x202,
        stack_pointer: 0x7FFF_0000,
        stack_segment: 0x1B,
    };
    let mut regs = Registers::empty();
    regs.rax = rax;
    regs.r15 = rax + 1;
    (isf, regs)
}

fn task(id: u64, root: usize) -> Task {
    let (isf, regs) = frame(0x1000 * id, id as usize);
    Task::new(id, isf, regs, root)
}

#[test]
fn round_robin_three_tasks() {
    let mut scheduler = scheduler();
    let mut queue: VecDeque<Task> = VecDeque::new();
    for id in 1..=3 {
        queue.push_back(task(id, 0x1000 * id as usize));
    }
    let (mut isf, mut regs) = frame(0, 0);
    for _ in 0..3 {
        let switch = scheduler.interrupt_task(&mut queue, &mut isf, &mut regs, 0x1000, IDLE_IP);
        assert_eq!(switch.preemption_wait_ms, PREEMPTION_WAIT_MS);
    }
    assert_eq!(scheduler.process().unwrap().id(), 3);
    let ids: Vec<u64> = queue.iter().map(|t| t.id).collect();
    assert_eq!(ids, vec![1, 2]);
    scheduler.interrupt_task(&mut queue, &mut isf, &mut regs, 0x1000, IDLE_IP);
    assert_eq!(scheduler.process().unwrap().id(), 1);
    let ids: Vec<u64> = queue.iter().map(|t| t.id).collect();
    assert_eq!(ids, vec![2, 3]);
}

#[test]
fn idle_fallback() {
    let mut scheduler = scheduler();
    let mut queue: VecDeque<Task> = VecDeque::new();
    let (mut isf, mut regs) = frame(0x4000, 99);
    let switch = scheduler.interrupt_task(&mut queue, &mut isf, &mut regs, 0x1000, IDLE_IP);
    assert_eq!(isf.instruction_pointer, IDLE_IP);
    assert_eq!(isf.stack_pointer, IDLE_SP);
    assert_eq!(regs, Registers::empty());
    assert!(scheduler.process().is_none());
    assert_eq!(switch.preemption_wait_ms, 15);
    assert_eq!(switch.load_root, None);
}

#[test]
fn fifo_first_runs_follow_queue_order() {
    let mut scheduler = scheduler();
    let mut queue: VecDeque<Task> = VecDeque::new();
    for id in [7, 3, 9, 4] {
        queue.push_back(task(id, 0x2000));
    }
    let (mut isf, mut regs) = frame(0, 0);
    let mut first_runs = Vec::new();
    for _ in 0..5 {
        scheduler.interrupt_task(&mut queue, &mut isf, &mut regs, 0x2000, IDLE_IP);
        let id = scheduler.process().unwrap().id();
        if !first_runs.contains(&id) {
            first_runs.push(id);
        }
    }
    assert_eq!(first_runs, vec![7, 3, 9, 4]);
}

#[test]
fn context_preserved_across_preemption() {
    let mut scheduler = scheduler();
    let mut queue: VecDeque<Task> = VecDeque::new();
    queue.push_back(task(1, 0x1000));
    queue.push_back(task(2, 0x2000));
    let (mut isf, mut regs) = frame(0, 0);
    scheduler.interrupt_task(&mut queue, &mut isf, &mut regs, 0, IDLE_IP);
    assert_eq!(scheduler.process().unwrap().id(), 1);
    // Task 1 runs and is preempted with this context.
    let (saved_isf, saved_regs) = frame(0xDEAD_B000, 0x1234);
    isf = saved_isf;
    regs = saved_regs;
    let switch = scheduler.interrupt_task(&mut queue, &mut isf, &mut regs, 0x1000, IDLE_IP);
    assert_eq!(scheduler.process().unwrap().id(), 2);
    assert_eq!(switch.load_root, Some(0x2000));
    // Task 2 runs with some other context, then is preempted.
    let (other_isf, other_regs) = frame(0x5555_0000, 77);
    isf = other_isf;
    regs = other_regs;
    let switch = scheduler.interrupt_task(&mut queue, &mut isf, &mut regs, 0x2000, IDLE_IP);
    assert_eq!(scheduler.process().unwrap().id(), 1);
    assert_eq!(switch.load_root, Some(0x1000));
    assert_eq!(isf, saved_isf);
    assert_eq!(regs, saved_regs);
}

#[test]
fn yield_and_kill() {
    let mut scheduler = scheduler();
    scheduler.enable();
    assert!(scheduler.is_enabled());
    let mut queue: VecDeque<Task> = VecDeque::new();
    queue.push_back(task(1, 0x1000));
    queue.push_back(task(2, 0x1000));
    let (mut isf, mut regs) = frame(0, 0);
    scheduler.interrupt_task(&mut queue, &mut isf, &mut regs, 0x1000, IDLE_IP);
    scheduler.yield_task(&mut queue, &mut isf, &mut regs, 0x1000, IDLE_IP);
    assert_eq!(scheduler.process().unwrap().id(), 2);
    scheduler.kill_task(&mut queue, &mut isf, &mut regs, 0x1000, IDLE_IP);
    assert_eq!(scheduler.process().unwrap().id(), 1);
    assert!(queue.is_empty());
    scheduler.kill_task(&mut queue, &mut isf, &mut regs, 0x1000, IDLE_IP);
    assert!(scheduler.process().is_none());
    assert_eq!(isf.instruction_pointer, IDLE_IP);
    scheduler.disable();
    assert!(!scheduler.is_enabled());
}

#[test]
fn ipi_validation() {
    let phys = InterruptDestinationMode::Physical;
    let cpu = InterruptDestination::Processor { id: 3 };
    assert_eq!(
        InterruptCommand::new(None, cpu, InterruptDeliveryMode::Fixed, phys, InterruptTriggerMode::Level, InterruptAssertMode::Deassert).err(),
        Some(CommandError::DeassertNotInitLevel)
    );
    assert_eq!(
        InterruptCommand::new(None, InterruptDestination::AllIncludingSelf, InterruptDeliveryMode::Init, phys, InterruptTriggerMode::Edge, InterruptAssertMode::Deassert).err(),
        Some(CommandError::DeassertNotInitLevel)
    );
    assert_eq!(
        InterruptCommand::new(Some(0x40), cpu, InterruptDeliveryMode::Init, phys, InterruptTriggerMode::Edge, InterruptAssertMode::Assert).err(),
        Some(CommandError::VectorWithSmiOrInit)
    );
    assert_eq!(
        InterruptCommand::new(Some(0x40), cpu, InterruptDeliveryMode::SystemManagement, phys, InterruptTriggerMode::Edge, InterruptAssertMode::Assert).err(),
        Some(CommandError::VectorWithSmiOrInit)
    );
    assert_eq!(
        InterruptCommand::new(Some(0x40), cpu, InterruptDeliveryMode::LowPriority, phys, InterruptTriggerMode::Edge, InterruptAssertMode::Assert).err(),
        Some(CommandError::LowPriority)
    );
    assert_eq!(
        InterruptCommand::new(None, cpu, InterruptDeliveryMode::Init, phys, InterruptTriggerMode::Level, InterruptAssertMode::Deassert).err(),
        Some(CommandError::DeassertDestination)
    );
    let ok = InterruptCommand::new(None, InterruptDestination::AllIncludingSelf, InterruptDeliveryMode::Init, phys, InterruptTriggerMode::Level, InterruptAssertMode::Deassert).unwrap();
    assert_eq!(ok.low(), 0x500 | 0x8000 | 0x80000);
    assert_eq!(ok.high(), 0);
    let fixed = InterruptCommand::new(
        Some(0x30),
        InterruptDestination::AllExcludingSelf,
        InterruptDeliveryMode::Fixed,
        InterruptDestinationMode::Logical,
        InterruptTriggerMode::Edge,
        InterruptAssertMode::Assert,
    )
    .unwrap();
    assert_eq!(fixed.low(), 0x30 | 0x800 | 0x4000 | 0xC0000);
}

#[test]
fn init_and_startup_commands() {
    let init = InterruptCommand::new_init(5);
    assert_eq!(init.high(), 5);
    assert_eq!(init.low(), 0xC500);
    let sipi = InterruptCommand::new_sipi(0x08, 5);
    assert_eq!(sipi.high(), 5);
    assert_eq!(sipi.low(), 0x4608);
}

#[test]
fn idt_coverage() {
    let stubs: Vec<u64> = (0..256u64).map(|v| 0xFFFF_FFFF_8010_0000 + v * 0x20).collect();
    let idt = InterruptDescriptorTable::new(&stubs, 0x08);
    for v in 0..=255u8 {
        let absent = v == 9 || v == 15 || (22..=27).contains(&v) || v == 31;
        let e = idt.entry(v);
        assert_eq!(e.is_present(), !absent, "vector {v}");
        if !absent {
            assert_eq!(e.handler, stubs[v as usize]);
            assert_eq!(e.code_selector, 0x08);
        }
    }
    assert_eq!(idt.entry(1).options & 0x7, 1);
    assert_eq!(idt.entry(2).options & 0x7, 2);
    assert_eq!(idt.entry(8).options & 0x7, 3);
    assert_eq!(idt.entry(18).options & 0x7, 4);
    assert_eq!((idt.entry(0x80).options >> 13) & 0x3, 3);
    assert_eq!((idt.entry(0x21).options >> 13) & 0x3, 0);
    for v in [8u8, 10, 11, 12, 13, 14, 17, 21, 29, 30] {
        assert!(idt.index(v).is_none(), "vector {v}");
    }
    assert_eq!(idt.index(0x21), Some(idt.entry(0x21)));
    assert!(!Entry::missing().is_present());
}

#[test]
fn irq_routing() {
    assert_eq!(route_irq(0x21), IrqRoute::Preempt);
    assert_eq!(route_irq(0x80), IrqRoute::Syscall);
    assert_eq!(route_irq(0x22), IrqRoute::Acknowledge);
    assert_eq!(route_irq(0xFF), IrqRoute::Acknowledge);
    assert_eq!(IrqVector::from_u8(0x25), IrqVector::CMCI);
    assert_eq!(IrqVector::from_u8(0x30), IrqVector::Unknown);
    assert_eq!(IrqVector::Syscall.as_u8(), 0x80);
}

#[test]
fn stopwatch_wraps() {
    let watch = Stopwatch::new(false);
    assert_eq!(watch.elapsed(0x10, 0x30), 0x20);
    assert_eq!(watch.elapsed(0xFF_FFF0, 0x10), 0x20);
    assert_eq!(watch.elapsed(0x50, 0x50), 0);
    assert_eq!(Stopwatch::wait_ticks(1_000_000), 3_579_545);
    assert_eq!(Stopwatch::wait_ticks(1), 4);
    assert_eq!(Stopwatch::wait_ticks(u64::MAX), u64::MAX);
}

#[test]
fn spin_wait_counts_across_wrap() {
    let watch = Stopwatch::new(false);
    // 10 us is 36 ticks.
    let mut wait = watch.start(10, 0xFF_FFF0);
    assert_eq!(wait.remaining, 36);
    assert!(!watch.step(&mut wait, 0xFF_FFFF));
    assert_eq!(wait.remaining, 21);
    assert!(!watch.step(&mut wait, 0x5));
    assert_eq!(wait.remaining, 15);
    assert!(!watch.step(&mut wait, 0x5));
    assert!(watch.step(&mut wait, 0x20));
    assert_eq!(wait.remaining, 0);
}

#[test]
fn klog_demand_maps_buffer() {
    let map = vec![
        MemoryMapEntry { base: 0x0, length: 0x9FC00, entry_type: EntryType::Usable },
        MemoryMapEntry { base: 0x100000, length: 0x7EF0000, entry_type: EntryType::Usable },
    ];
    let mut pmm = PhysicalMemoryManager::new(&map).unwrap();
    let kernel = AddressSpace::new(Mapper::new(4, &mut pmm).unwrap());
    let mut user = AddressSpace::new_userspace(&kernel, &mut pmm).unwrap();
    assert_eq!(decode(0x100), Ok(Vector::KlogInfo));
    assert_eq!(covered_pages(0xDEAD_0000, 17), vec![0xDEAD_0000]);
    assert_eq!(covered_pages(0xDEAD_0FF8, 17), vec![0xDEAD_0000, 0xDEAD_1000]);
    assert_eq!(covered_pages(0xDEAD_0000, 0), Vec::<u64>::new());
    assert_eq!(demand_map_buffer(&mut user, &mut pmm, 0xDEAD_0000, 17), Ok(()));
    assert!(user.is_mmapped(0xDEAD_0000));
    assert!(!user.is_mmapped(0xDEAD_1000));
    // Mapped pages are accepted as they are.
    assert_eq!(demand_map_buffer(&mut user, &mut pmm, 0xDEAD_0FF8, 17), Ok(()));
    assert!(user.is_mmapped(0xDEAD_1000));
    let line = klog_line(&b"hello from task 1".to_vec()).unwrap();
    assert_eq!(String::from_utf8(line).unwrap(), "[KLOG]: hello from task 1");
    assert_eq!(result_registers(Ok(())), (0, 0));
}

#[test]
fn klog_rejects_bad_utf8() {
    assert_eq!(klog_line(&vec![0x66, 0xFF, 0x66]), Err(SyscallError::BadUtf8));
    assert_eq!(klog_line(&vec![0xE2, 0x82]), Err(SyscallError::BadUtf8));
    assert_eq!(klog_line(&"héllo".as_bytes().to_vec()).unwrap(), "[KLOG]: héllo".as_bytes().to_vec());
    assert_eq!(klog_line_checked(&b"ok".to_vec(), false), Err(SyscallError::BadUtf8));
    assert_eq!(klog_line_checked(&b"ok".to_vec(), true), Ok(b"[KLOG]: ok".to_vec()));
}

#[test]
fn syscall_errors() {
    assert_eq!(decode(0x999), Err(SyscallError::InvalidVector));
    assert_eq!(decode(0x200), Ok(Vector::TaskExit));
    assert_eq!(decode(0x201), Ok(Vector::TaskYield));
    assert_eq!(result_registers(Err(SyscallError::InvalidVector)), (1, 1));
    assert_eq!(result_registers(Err(SyscallError::NoActiveTask)), (1, 2));
    assert_eq!(result_registers(Err(SyscallError::UnmappedMemory)), (1, 3));
    assert_eq!(result_registers(Err(SyscallError::BadUtf8)), (1, 4));
}

#[test]
fn command_line_tokens() {
    let p = parse(&b"".to_vec());
    assert!(p.use_multiprocessing && p.keep_symbol_info && !p.low_memory_mode);
    let p = parse(&b"--nomp".to_vec());
    assert!(!p.use_multiprocessing);
    let p = parse(&b"--keep-symbols  --lomem\t--bogus".to_vec());
    assert!(p.use_multiprocessing && p.keep_symbol_info && p.low_memory_mode);
    let p = parse(&b"--nompx --lomemory".to_vec());
    assert!(p.use_multiprocessing && !p.low_memory_mode);
}

#[test]
fn descriptor_table() {
    let (kcode, kdata, udata, ucode) = standard_selectors();
    assert_eq!((kcode.as_u16(), kdata.as_u16(), udata.as_u16(), ucode.as_u16()), (0x08, 0x10, 0x1B, 0x23));
    let mut gdt = GlobalDescriptorTable::new();
    assert_eq!(gdt.append_segment(GenericSegmentDescriptor::kernel_code()).as_u16(), 0x08);
    assert_eq!(gdt.append_segment(GenericSegmentDescriptor::kernel_data()).as_u16(), 0x10);
    assert_eq!(gdt.append_segment(GenericSegmentDescriptor::user_data()).as_u16(), 0x1B);
    assert_eq!(gdt.append_segment(GenericSegmentDescriptor::user_code()).as_u16(), 0x23);
    assert_eq!(gdt.as_words(), &vec![0, 0x00AF_9B00_0000_FFFF, 0x00CF_9300_0000_FFFF, 0x00CF_F300_0000_FFFF, 0x00AF_FB00_0000_FFFF]);
    let s = SegmentSelector::new(5, PrivilegeLevel::Ring3);
    assert_eq!(s.gdt_index(), 5);
    assert_eq!(s.privilege_level(), PrivilegeLevel::Ring3);
}

#[test]
fn fault_decoding() {
    let e = PageFaultError::decode(0b0000110);
    assert!(!e.present && e.write && e.user);
    assert_eq!(e.reason(), PageFaultReason::NotMapped);
    assert_eq!(page_fault_action(0b110, 0xDEAD_0123, true), PageFaultAction::DemandMap(0xDEAD_0000));
    assert_eq!(page_fault_action(0b110, 0xDEAD_0123, false), PageFaultAction::Fatal(PageFaultReason::NotMapped));
    assert_eq!(page_fault_action(0b111, 0xDEAD_0123, true), PageFaultAction::Fatal(PageFaultReason::BadPermissions));
    let s = SelectorErrorCode::decode((0x12 << 3) | 0b011);
    assert!(s.external);
    assert_eq!(s.table, DescriptorTable::Idt);
    assert_eq!(s.index, 0x12);
    assert_eq!(SelectorErrorCode::decode(0b100).table, DescriptorTable::Ldt);
}

#[test]
fn apic_reset_sequence() {
    let mut apic = x2Apic {
        id: 2,
        version: (6 << 16) | 0x15,
        spurious_vector: 0x1FF,
        error_status: 0,
        interrupt_command: 0,
        eoi_register: 1,
        lvt_timer: 0,
        lvt_lint0: 0x700,
        lvt_lint1: 0x400,
        lvt_error: 0x1_0000,
        lvt_performance_counter: 0x1_0000,
        lvt_thermal_monitor: 0x1_0000,
        lvt_cmci: 0x1_0000,
        timer_initial_count: 0,
        timer_current_count: 0,
        timer_divide_configuration: 0,
    };
    assert_eq!(apic.max_lvt_entry(), 6);
    assert_eq!(apic.version(), 0x15);
    apic.reset();
    assert!(apic.get_enabled());
    assert_eq!(apic.get_spurious_vector(), 0xFF);
    assert_eq!(apic.lvt_error().get_vector(), 0x22);
    assert!(!apic.lvt_error().get_masked());
    assert_eq!(apic.lvt_timer().get_vector(), 0x21);
    assert!(apic.lvt_timer().get_masked());
    assert_eq!(apic.lvt_cmci().unwrap().get_vector(), 0x25);
    assert_eq!(apic.lvt_lint0().raw, 0x700);
    apic.set_enabled(true);
    assert!(apic.get_enabled());
    apic.end_of_interrupt();
    assert_eq!(apic.eoi_register, 0);
    apic.set_timer_divide_configuration(TimerDivideConfiguration::DivideBy1);
    assert_eq!(apic.timer_divide_configuration, 0b1011);
    assert_eq!(apic.get_timer_divide_configuration(), Some(TimerDivideConfiguration::DivideBy1));
    apic.send_interrupt_command(InterruptCommand::new_init(7));
    assert_eq!(apic.interrupt_command, (7 << 32) | 0xC500);
    let mut lv = LocalVector::from_raw(0);
    lv.set_mode(TimerMode::TscDeadline, true);
    assert_eq!(lv.get_mode(), Some(TimerMode::TscDeadline));
    lv.set_delivery_mode(InterruptDeliveryMode::NonMaskable);
    assert_eq!(lv.raw, 0x4_0400);
}

#[test]
fn local_timer_waits() {
    assert!(use_tsc_deadline(true, true, true));
    assert!(!use_tsc_deadline(true, false, true));
    let mut lvt = LocalVector::from_raw(0x21);
    let tsc = LocalTimer::configure(&mut lvt, true, None, Some(2_000_000_000), 1, None, 1);
    assert_eq!(tsc, LocalTimer::TimestampCounter { frequency: 2_000_000_000 });
    assert_eq!(tsc.set_wait(15_000, 100), Ok(TimerArm::Deadline(100 + 30_000_000)));
    assert_eq!(tsc.set_wait(u64::MAX, 0), Err(TimerError::InvalidWait));
    assert_eq!(lvt.get_mode(), Some(TimerMode::TscDeadline));
    assert_eq!(lvt.get_vector(), 0x21);
    let apic = LocalTimer::configure(&mut lvt, false, Some(5), None, 1, None, 1_000_000_000);
    assert_eq!(apic, LocalTimer::LocalApic { apic_frequency: 1_000_000_000 });
    assert_eq!(lvt.get_mode(), Some(TimerMode::OneShot));
    assert_eq!(apic.set_wait(15_000, 0), Ok(TimerArm::InitialCount(15_000_000)));
    assert_eq!(apic.set_wait(5_000_000, 0), Err(TimerError::InvalidWait));
    assert_eq!(measured_frequency(1000), Some(20_000));
    assert_eq!(measured_frequency(u64::MAX), None);
}

fn apic_state() -> x2Apic {
    x2Apic {
        id: 0,
        version: (6 << 16) | 0x15,
        spurious_vector: 0x1FF,
        error_status: 0,
        interrupt_command: 0,
        eoi_register: 1,
        lvt_timer: 0,
        lvt_lint0: 0,
        lvt_lint1: 0,
        lvt_error: 0,
        lvt_performance_counter: 0,
        lvt_thermal_monitor: 0,
        lvt_cmci: 0,
        timer_initial_count: 0,
        timer_current_count: 0,
        timer_divide_configuration: 0,
    }
}

#[test]
fn irq_handler_dispatches_and_acknowledges() {
    let mut scheduler = scheduler();
    let mut queue: VecDeque<Task> = VecDeque::new();
    queue.push_back(task(1, 0x1000));
    queue.push_back(task(2, 0x2000));
    let mut apic = apic_state();
    let (mut isf, mut regs) = frame(0, 0);
    // Timer: task 1 starts.
    let out = handle_irq(0x21, &mut scheduler, &mut queue, &mut isf, &mut regs, &mut apic, 0, IDLE_IP);
    assert!(matches!(out, IrqOutcome::Switched(_)));
    assert_eq!(apic.eoi_register, 0);
    assert_eq!(scheduler.process().unwrap().id(), 1);
    // Task 1 asks for an unknown call.
    apic.eoi_register = 1;
    regs.rax = 0x999;
    let out = handle_irq(0x80, &mut scheduler, &mut queue, &mut isf, &mut regs, &mut apic, 0x1000, IDLE_IP);
    assert_eq!(out, IrqOutcome::Done);
    assert_eq!((regs.rdi, regs.rsi), (1, 1));
    assert_eq!(apic.eoi_register, 0);
    // Task 1 logs.
    regs.rax = 0x100;
    regs.rdi = 0xDEAD_0000;
    regs.rsi = 17;
    let out = handle_irq(0x80, &mut scheduler, &mut queue, &mut isf, &mut regs, &mut apic, 0x1000, IDLE_IP);
    assert_eq!(out, IrqOutcome::Klog { level: kernel::syscall::Level::Info, ptr: 0xDEAD_0000, len: 17 });
    kernel::irq::complete_syscall(&mut regs, Ok(()));
    assert_eq!((regs.rdi, regs.rsi), (0, 0));
    // Task 1 yields: task 2 runs, and task 1 keeps a success result.
    regs.rax = 0x201;
    handle_irq(0x80, &mut scheduler, &mut queue, &mut isf, &mut regs, &mut apic, 0x1000, IDLE_IP);
    assert_eq!(scheduler.process().unwrap().id(), 2);
    let saved = queue.back().unwrap();
    assert_eq!(saved.id, 1);
    assert_eq!((saved.regs.rdi, saved.regs.rsi), (0, 0));
    // Task 2 exits: task 1 comes back.
    regs.rax = 0x200;
    handle_irq(0x80, &mut scheduler, &mut queue, &mut isf, &mut regs, &mut apic, 0x2000, IDLE_IP);
    assert_eq!(scheduler.process().unwrap().id(), 1);
    assert!(queue.is_empty());
    // Any other vector is only acknowledged.
    apic.eoi_register = 1;
    assert_eq!(
        handle_irq(0x22, &mut scheduler, &mut queue, &mut isf, &mut regs, &mut apic, 0x1000, IDLE_IP),
        IrqOutcome::Done
    );
    assert_eq!(apic.eoi_register, 0);
}

#[test]
fn yield_without_task_reports_error() {
    let mut scheduler = scheduler();
    let mut queue: VecDeque<Task> = VecDeque::new();
    let mut apic = apic_state();
    let (mut isf, mut regs) = frame(0, 0);
    regs.rax = 0x201;
    assert_eq!(
        handle_irq(0x80, &mut scheduler, &mut queue, &mut isf, &mut regs, &mut apic, 0, IDLE_IP),
        IrqOutcome::Done
    );
    assert_eq!((regs.rdi, regs.rsi), (1, 2));
}

#[test]
fn klog_outcome_chains_steps() {
    assert_eq!(klog_outcome(Err(SyscallError::UnmappedMemory), &b"x".to_vec()), Err(SyscallError::UnmappedMemory));
    assert_eq!(klog_outcome(Ok(()), &vec![0xFF]), Err(SyscallError::BadUtf8));
    assert_eq!(klog_outcome(Ok(()), &b"hi".to_vec()), Ok(b"[KLOG]: hi".to_vec()));
}
