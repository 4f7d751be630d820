use kernel::address_space::MmapPermissions;
use kernel::cpu::{ThreadEntry, begin_multiprocessing};
use kernel::control::{CR0, CR3, CpuFeatures, cr0_flags, cr4_flags, enable_no_execute};
use kernel::gdt::{PrivilegeLevel, SegmentSelector, SystemSegmentDescriptor};
use kernel::kernel_memory::{
    SegmentHeader, entry_flags, kernel_flags, kernel_load_segments, kernel_segment, load_segments,
    map_kernel_segments, map_memory_map, map_range, page_granularity, segment_permissions,
};
use kernel::mapper::Mapper;
use kernel::msr::{IA32_APIC_BASE, IA32_EFER, IA32_STAR};
use kernel::paging::{HUGE, RO, RW, RX};
use kernel::pmm::{EntryType, MemoryMapEntry, PhysicalMemoryManager};
use kernel::rand::{Prng, next_u32, next_u64, seed_of};
use kernel::tss::{DescriptorTablePointer, InterruptStackTableIndex, Stack, TaskStateSegment};

fn pmm() -> PhysicalMemoryManager {
    let map = vec![
        MemoryMapEntry { base: 0x0, length: 0x9FC00, entry_type: EntryType::Usable },
        MemoryMapEntry { base: 0x100000, length: 0x7EF0000, entry_type: EntryType::Usable },
    ];
    PhysicalMemoryManager::new(&map).unwrap()
}

#[test]
fn page_size_policy() {
    assert_eq!(page_granularity(0x4000_0000, 0x4000_0000, true, true), (3, 0x4000_0000));
    assert_eq!(page_granularity(0x4000_0000, 0x4000_0000, false, true), (2, 0x20_0000));
    assert_eq!(page_granularity(0x20_0000, 0x3FFF_F000, true, true), (2, 0x20_0000));
    assert_eq!(page_granularity(0x20_1000, 0x40_0000, true, true), (1, 0x1000));
    assert_eq!(page_granularity(0x20_0000, 0x1F_F000, true, true), (1, 0x1000));
}

#[test]
fn map_range_pieces() {
    let mut pmm = pmm();
    let mut mapper = Mapper::new(4, &mut pmm).unwrap();
    let pieces = map_range(&mut mapper, &mut pmm, 0x1F_F000, 0x1F_F000, 0x20_1800, RW, true, true).unwrap();
    assert_eq!(
        pieces,
        vec![(0x1F_F000, 0x1F_F000, 1), (0x20_0000, 0x20_0000, 2), (0x40_0000, 0x40_0000, 1)]
    );
    assert_eq!(mapper.get_mapped_to(0x30_0000), Some(0x30_0000));
    assert_eq!(mapper.get_page_attributes(0x30_0000), Some(RW | HUGE));
    assert_eq!(mapper.get_page_attributes(0x1F_F000), Some(RW));
    assert_eq!(mapper.get_mapped_to(0x40_0000), Some(0x40_0000));
    assert_eq!(mapper.get_mapped_to(0x40_1000), None);
}

#[test]
fn memory_map_flags() {
    assert_eq!(entry_flags(EntryType::Usable), Some(RW));
    assert_eq!(entry_flags(EntryType::Framebuffer), Some(RW));
    assert_eq!(entry_flags(EntryType::AcpiReclaimable), Some(RW));
    assert_eq!(entry_flags(EntryType::Reserved), Some(RO));
    assert_eq!(entry_flags(EntryType::ExecutableAndModules), Some(RO));
    assert_eq!(entry_flags(EntryType::BadMemory), None);
    let mut pmm = pmm();
    let mut mapper = Mapper::new(4, &mut pmm).unwrap();
    let map = vec![
        MemoryMapEntry { base: 0x0, length: 0x9F000, entry_type: EntryType::Usable },
        MemoryMapEntry { base: 0xA0000, length: 0x20000, entry_type: EntryType::Reserved },
    ];
    let hhdm = 0xFFFF_8000_0000_0000u64;
    map_memory_map(&mut mapper, &mut pmm, hhdm, &map, true, true).unwrap();
    assert_eq!(mapper.get_mapped_to(hhdm + 0x5000), Some(0x5000));
    assert_eq!(mapper.get_page_attributes(hhdm + 0x5000), Some(RW));
    assert_eq!(mapper.get_page_attributes(hhdm + 0xA1000), Some(RO));
    assert_eq!(mapper.get_mapped_to(hhdm + 0xC0000), None);
}

#[test]
fn segment_rules() {
    assert_eq!(segment_permissions(0x5), MmapPermissions::ReadExecute);
    assert_eq!(segment_permissions(0x6), MmapPermissions::ReadWrite);
    assert_eq!(segment_permissions(0x4), MmapPermissions::ReadOnly);
    assert_eq!(kernel_flags(MmapPermissions::ReadExecute), RX);
    assert_eq!(
        kernel_segment(0xFFFF_FFFF_8000_1000, 0x800, 0x1000, 0x20_0000, 0xFFFF_FFFF_8000_0000),
        Some((0xFFFF_FFFF_8000_1000, 0x20_1000, 0x1000))
    );
    assert_eq!(kernel_segment(0x1000, 0x800, 0x1000, 0x20_0000, 0xFFFF_FFFF_8000_0000), None);
    let headers = vec![
        SegmentHeader { p_type: 6, p_flags: 4, p_vaddr: 0, p_memsz: 0, p_align: 8 },
        SegmentHeader { p_type: 1, p_flags: 5, p_vaddr: 0x1000, p_memsz: 0x10, p_align: 0x1000 },
    ];
    assert_eq!(load_segments(&headers), vec![headers[1]]);
}

fn push(v: &mut Vec<u8>, x: u64, n: usize) {
    v.extend_from_slice(&x.to_le_bytes()[..n]);
}

fn tiny_elf() -> Vec<u8> {
    let mut b = vec![0x7F, b'E', b'L', b'F', 2, 1, 1, 0];
    b.extend_from_slice(&[0; 8]);
    push(&mut b, 2, 2); // e_type
    push(&mut b, 0x3E, 2); // e_machine
    push(&mut b, 1, 4); // e_version
    push(&mut b, 0xFFFF_FFFF_8000_1000, 8); // e_entry
    push(&mut b, 64, 8); // e_phoff
    push(&mut b, 0, 8); // e_shoff
    push(&mut b, 0, 4); // e_flags
    push(&mut b, 64, 2); // e_ehsize
    push(&mut b, 56, 2); // e_phentsize
    push(&mut b, 2, 2); // e_phnum
    push(&mut b, 64, 2); // e_shentsize
    push(&mut b, 0, 2); // e_shnum
    push(&mut b, 0, 2); // e_shstrndx
    // A loadable, executable segment.
    push(&mut b, 1, 4);
    push(&mut b, 5, 4);
    push(&mut b, 0x1000, 8);
    push(&mut b, 0xFFFF_FFFF_8000_0000, 8);
    push(&mut b, 0x20_0000, 8);
    push(&mut b, 0x800, 8);
    push(&mut b, 0x800, 8);
    push(&mut b, 0x1000, 8);
    // A note segment.
    push(&mut b, 4, 4);
    push(&mut b, 4, 4);
    for _ in 0..6 {
        push(&mut b, 0, 8);
    }
    b
}

#[test]
fn kernel_image_segments() {
    assert!(kernel_load_segments(&vec![0u8; 16]).is_none());
    let segments = kernel_load_segments(&tiny_elf()).unwrap();
    assert_eq!(
        segments,
        vec![SegmentHeader {
            p_type: 1,
            p_flags: 5,
            p_vaddr: 0xFFFF_FFFF_8000_0000,
            p_memsz: 0x800,
            p_align: 0x1000,
        }]
    );
    let mut pmm = pmm();
    let mut mapper = Mapper::new(4, &mut pmm).unwrap();
    map_kernel_segments(&mut mapper, &mut pmm, &segments, 0x20_0000, 0xFFFF_FFFF_8000_0000, true, true)
        .unwrap();
    assert_eq!(mapper.get_mapped_to(0xFFFF_FFFF_8000_0000), Some(0x20_0000));
    assert_eq!(mapper.get_page_attributes(0xFFFF_FFFF_8000_0000), Some(RX));
}

#[test]
fn prng_streams() {
    assert_eq!(seed_of(5, 1), (1u128 << 64) + 5);
    let mut a = Prng::new(1, 2);
    let mut b = Prng::new(1, 2);
    let x = next_u64(&mut a);
    assert_eq!(x, next_u64(&mut b));
    let y = next_u64(&mut a);
    assert_ne!(x, y);
    let _ = next_u32(&mut a);
    let mut c = Prng::new(3, 4);
    assert_ne!(next_u64(&mut c), x);
}

#[test]
fn control_registers() {
    assert_eq!(cr0_flags(), 0x8001_0033);
    let none = CpuFeatures {
        de: false,
        fxsave_fxrstor: false,
        mce: false,
        pcid: false,
        umip: false,
        fsgsbase: false,
        smep: false,
        smap: false,
        execute_disable: false,
    };
    assert_eq!(cr4_flags(none), 0x4A0);
    let all = CpuFeatures {
        de: true,
        fxsave_fxrstor: true,
        mce: true,
        pcid: true,
        umip: true,
        fsgsbase: true,
        smep: true,
        smap: true,
        execute_disable: true,
    };
    assert_eq!(cr4_flags(all), 0x4A0 | 0x8 | 0x200 | 0x40 | 0x2_0000 | 0x800 | 0x1_0000 | 0x10_0000 | 0x20_0000);
    assert!(enable_no_execute(all));
    assert!(!enable_no_execute(none));
    let mut cr0 = CR0 { value: 0 };
    cr0.enable(0x1);
    cr0.enable(0x8000_0000);
    cr0.disable(0x1);
    assert_eq!(cr0.value, 0x8000_0000);
    assert_eq!(CR3::new(0x1234_5000, 0x18).frame(), 0x1234_5000);
}

#[test]
fn task_state_segment() {
    let stack = |i: u64| Stack { base: 0x10_0000 * i, size: 0x4000 };
    let tss = TaskStateSegment::new(stack(1), [stack(2), stack(3), stack(4), stack(5)]);
    assert_eq!(tss.privilege_stack_table, [0x10_4000, 0, 0]);
    assert_eq!(tss.interrupt_stack_table, [0x20_4000, 0x30_4000, 0x40_4000, 0x50_4000, 0, 0, 0]);
    assert_eq!(InterruptStackTableIndex::DoubleFault.slot(), 2);
    let d = SystemSegmentDescriptor::from_tss(0xFFFF_8000_1234_5678, 103);
    assert_eq!(d.low, 103 | (0x34_5678 << 16) | (0x89 << 40) | (0x12 << 56));
    assert_eq!(d.high, 0xFFFF_8000);
    let p = DescriptorTablePointer::new(0x1000, 256 * 16);
    assert_eq!(p.limit, 4095);
}

#[test]
fn model_specific_registers() {
    let mut apic_base = IA32_APIC_BASE::from_value(0xFEE0_0900);
    assert!(apic_base.get_is_bsp());
    assert!(!apic_base.get_is_x2apic_mode());
    assert!(apic_base.get_hw_enabled());
    assert_eq!(apic_base.get_base_address(), 0xFEE0_0000);
    apic_base.set_hw_enabled(false);
    assert_eq!(apic_base.value, 0xFEE0_0100);
    let mut efer = IA32_EFER::from_value(0x500);
    assert!(efer.get_long_mode_active());
    efer.set_sycall_enable(true);
    efer.set_no_execute_enable(true);
    assert!(efer.get_no_execute_enable());
    assert_eq!(efer.value, 0xD01);
    let mut star = IA32_STAR::from_value(0);
    star.set_selectors(
        SegmentSelector::new(1, PrivilegeLevel::Ring0),
        SegmentSelector::new(2, PrivilegeLevel::Ring0),
    );
    assert_eq!(star.value, (0x10 << 48) | (0x08 << 32));
}

#[test]
fn task_state_segment_stacks_are_disjoint() {
    let mut pmm = pmm();
    let hhdm = kernel::hhdm::HigherHalfDirectMap::new(0xFFFF_8000_0000_0000).unwrap();
    let (tss, stacks) = TaskStateSegment::allocate(&mut pmm, &hhdm).unwrap();
    assert_eq!(stacks.len(), 5);
    for (i, a) in stacks.iter().enumerate() {
        assert_eq!(a.size, 0x10000);
        for b in stacks.iter().skip(i + 1) {
            assert!(a.base + a.size <= b.base || b.base + b.size <= a.base);
        }
    }
    assert_eq!(tss.privilege_stack_table[0], stacks[0].base + 0x10000);
    assert_eq!(tss.interrupt_stack_table[3], stacks[4].base + 0x10000);
}

#[test]
fn startup_threads() {
    assert_eq!(
        begin_multiprocessing(Some(vec![0, 1, 2]), 0, true),
        Some((3, vec![(1, ThreadEntry::Start), (2, ThreadEntry::Start)]))
    );
    assert_eq!(
        begin_multiprocessing(Some(vec![2, 0, 1]), 1, false),
        Some((3, vec![(2, ThreadEntry::Idle), (0, ThreadEntry::Idle)]))
    );
    assert_eq!(begin_multiprocessing(None, 0, true), None);
}
