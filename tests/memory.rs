use kernel::address_space::{AddressSpace, MmapPermissions};
use kernel::cpu::{range_contains_stack, reclaim_entry};
use kernel::hhdm::HigherHalfDirectMap;
use kernel::kalloc::{KernelAllocator, Layout};
use kernel::mapper::{Error as MapperError, Mapper};
use kernel::paging::{ADDRESS_MASK, HUGE, PRESENT, RW, USER, WRITE};
use kernel::pmm::{EntryType, Error, MemoryMapEntry, PhysicalMemoryManager};
use kernel::walker::Walker;

fn entry(base: usize, length: usize, entry_type: EntryType) -> MemoryMapEntry {
    MemoryMapEntry { base, length, entry_type }
}

fn small_map() -> Vec<MemoryMapEntry> {
    vec![
        entry(0x0, 0x9FC00, EntryType::Usable),
        entry(0x100000, 0x7EF0000, EntryType::Usable),
    ]
}

fn count_locked(pmm: &PhysicalMemoryManager) -> usize {
    let mut n = 0;
    for i in 0..pmm.total_frames() {
        if pmm.is_locked(i * 4096).unwrap() {
            n += 1;
        }
    }
    n
}

#[test]
fn frame_alloc_first_free_frame() {
    let mut pmm = PhysicalMemoryManager::new(&small_map()).unwrap();
    assert_eq!(pmm.total_frames(), 0x7FF0);
    assert_eq!(pmm.total_memory(), 0x7FF_0000);
    // Frame 0 holds the frame table itself.
    assert_eq!(pmm.is_locked(0), Ok(true));
    // The gap between the two entries is locked.
    assert_eq!(pmm.is_locked(0x9F000), Ok(true));
    assert_eq!(pmm.is_locked(0xFF000), Ok(true));
    assert_eq!(pmm.is_locked(0x100000), Ok(false));
    let frame = pmm.next_frame().unwrap();
    assert_eq!(frame, 0x1000);
    assert_eq!(pmm.is_locked(frame), Ok(true));
    assert_eq!(pmm.free_frame(frame), Ok(()));
    assert_eq!(pmm.is_locked(frame), Ok(false));
}

#[test]
fn frame_errors() {
    let mut pmm = PhysicalMemoryManager::new(&small_map()).unwrap();
    assert_eq!(pmm.lock_frame(0x7FF_0000), Err(Error::OutOfBounds(0x7FF_0000)));
    assert_eq!(pmm.free_frame(0x7FF_0000), Err(Error::OutOfBounds(0x7FF_0000)));
    assert_eq!(pmm.is_locked(0x7FF_0000), Err(Error::OutOfBounds(0x7FF_0000)));
    assert_eq!(pmm.lock_frame(0), Err(Error::NotFree(0)));
    assert_eq!(pmm.free_frame(0x200000), Err(Error::NotLocked(0x200000)));
    assert_eq!(pmm.lock_frame(0x200000), Ok(()));
    assert_eq!(pmm.lock_frame(0x200000), Err(Error::NotFree(0x200000)));
}

#[test]
fn no_region_for_table() {
    let map = vec![
        entry(0x0, 0x800, EntryType::Usable),
        entry(0x1000, 0x100000, EntryType::Reserved),
    ];
    assert!(PhysicalMemoryManager::new(&map).is_none());
}

#[test]
fn exhausted_manager() {
    let map = vec![
        entry(0x0, 0x1000, EntryType::Usable),
        entry(0x1000, 0x1000, EntryType::Reserved),
    ];
    let mut pmm = PhysicalMemoryManager::new(&map).unwrap();
    assert_eq!(pmm.next_frame(), Err(Error::NoneFree));
    assert_eq!(pmm.next_frames(2, None), Err(Error::NoneFree));
}

#[test]
fn bitmap_conservation() {
    let mut pmm = PhysicalMemoryManager::new(&small_map()).unwrap();
    let start = count_locked(&pmm);
    let a = pmm.next_frame().unwrap();
    let b = pmm.next_frames(4, Some(0x4000)).unwrap();
    assert_eq!(b % 0x4000, 0);
    pmm.lock_frame(0x300000).unwrap();
    assert!(pmm.lock_frame(0x300000).is_err());
    assert_eq!(count_locked(&pmm), start + 1 + 4 + 1);
    pmm.free_frame(a).unwrap();
    assert!(pmm.free_frame(a).is_err());
    pmm.free_frame(0x300000).unwrap();
    assert_eq!(count_locked(&pmm), start + 4);
}

#[test]
fn aligned_run() {
    let mut pmm = PhysicalMemoryManager::new(&small_map()).unwrap();
    let run = pmm.next_frames(3, Some(0x200000)).unwrap();
    // Frame runs start on a 2 MiB boundary; the first at 0 is taken by
    // the table.
    assert_eq!(run, 0x200000);
    for i in 0..3 {
        assert_eq!(pmm.is_locked(run + i * 4096), Ok(true));
    }
    assert_eq!(pmm.is_locked(run + 3 * 4096), Ok(false));
}

#[test]
fn hhdm_offsets() {
    assert!(HigherHalfDirectMap::new(0).is_none());
    let hhdm = HigherHalfDirectMap::new(0xFFFF_8000_0000_0000).unwrap();
    assert_eq!(hhdm.offset(0x1000), 0xFFFF_8000_0000_1000);
    assert_eq!(hhdm.negative_offset(0xFFFF_8000_0000_1000), 0x1000);
    assert_eq!(hhdm.physical_to_virtual(usize::MAX), None);
    assert_eq!(hhdm.virtual_to_physical(0x1000), None);
}

#[test]
fn allocator_round_trip() {
    let mut pmm = PhysicalMemoryManager::new(&small_map()).unwrap();
    let hhdm = HigherHalfDirectMap::new(0xFFFF_8000_0000_0000).unwrap();
    let before: Vec<bool> = (0..pmm.total_frames()).map(|i| pmm.is_locked(i * 4096).unwrap()).collect();
    let layout = Layout { size: 3 * 4096 + 1, align: 8 };
    let (ptr, len) = KernelAllocator.allocate(&mut pmm, &hhdm, layout).unwrap();
    assert_eq!(len, layout.size);
    assert_eq!(ptr, 0xFFFF_8000_0000_1000);
    assert_eq!(count_locked(&pmm), before.iter().filter(|b| **b).count() + 4);
    KernelAllocator.deallocate(&mut pmm, &hhdm, ptr, layout).unwrap();
    let after: Vec<bool> = (0..pmm.total_frames()).map(|i| pmm.is_locked(i * 4096).unwrap()).collect();
    assert_eq!(before, after);
}

#[test]
fn allocator_drains() {
    let mut pmm = PhysicalMemoryManager::new(&small_map()).unwrap();
    let hhdm = HigherHalfDirectMap::new(0xFFFF_8000_0000_0000).unwrap();
    let layout = Layout { size: 100, align: 8 };
    let mut last = count_locked(&pmm);
    for _ in 0..5 {
        KernelAllocator.allocate(&mut pmm, &hhdm, layout).unwrap();
        let now = count_locked(&pmm);
        assert_eq!(now, last + 1);
        last = now;
    }
}

#[test]
fn map_two_mib_page() {
    let mut pmm = PhysicalMemoryManager::new(&small_map()).unwrap();
    let mut mapper = Mapper::new(4, &mut pmm).unwrap();
    mapper
        .map(&mut pmm, 0xFFFF_8000_0000_0000, 2, 0x0, false, RW | HUGE)
        .unwrap();
    assert!(mapper.is_mapped(0xFFFF_8000_0000_0000, Some(2)));
    assert_eq!(mapper.get_mapped_to(0xFFFF_8000_0010_0000), Some(0x10_0000));
    let attributes = mapper.get_page_attributes(0xFFFF_8000_0010_0000).unwrap();
    assert_eq!(attributes & (PRESENT | WRITE | HUGE), PRESENT | WRITE | HUGE);
}

#[test]
fn huge_flag_must_match_depth() {
    let mut pmm = PhysicalMemoryManager::new(&small_map()).unwrap();
    let mut mapper = Mapper::new(4, &mut pmm).unwrap();
    assert_eq!(
        mapper.map(&mut pmm, 0x40_0000, 2, 0x0, false, RW),
        Err(MapperError::HugeMisaligned)
    );
    assert_eq!(
        mapper.map(&mut pmm, 0x40_0000, 1, 0x0, false, RW | HUGE),
        Err(MapperError::HugeMisaligned)
    );
}

#[test]
fn mapper_round_trip() {
    let mut pmm = PhysicalMemoryManager::new(&small_map()).unwrap();
    let mut mapper = Mapper::new(4, &mut pmm).unwrap();
    let page = 0x4000_0000u64;
    let frame = 0x30_0000u64;
    assert!(!mapper.is_mapped(page, None));
    mapper.map(&mut pmm, page, 1, frame, true, RW).unwrap();
    assert_eq!(pmm.is_locked(frame as usize), Ok(true));
    assert!(mapper.is_mapped(page, Some(1)));
    assert!(mapper.is_mapped_to(page, frame));
    assert_eq!(mapper.get_mapped_to(page), Some(frame));
    assert_eq!(mapper.get_page_attributes(page), Some(RW));
    // The frame is locked now, so a second locking map is refused.
    assert!(mapper.map(&mut pmm, 0x5000_0000, 1, frame, true, RW).is_err());
    mapper.unmap(&mut pmm, page, Some(1), true).unwrap();
    assert!(!mapper.is_mapped(page, Some(1)));
    assert_eq!(mapper.get_mapped_to(page), None);
    assert_eq!(pmm.is_locked(frame as usize), Ok(false));
    assert_eq!(mapper.unmap(&mut pmm, page, Some(1), false), Err(MapperError::NotMapped(page)));
}

#[test]
fn auto_map_and_attributes() {
    let mut pmm = PhysicalMemoryManager::new(&small_map()).unwrap();
    let mut mapper = Mapper::new(4, &mut pmm).unwrap();
    mapper.auto_map(&mut pmm, 0x7000, RW).unwrap();
    let frame = mapper.get_mapped_to(0x7000).unwrap();
    assert_eq!(pmm.is_locked(frame as usize), Ok(true));
    mapper
        .set_page_attributes(0x7000, None, USER, kernel::paging::FlagsModify::Insert)
        .unwrap();
    assert_eq!(mapper.get_page_attributes(0x7000), Some(RW | USER));
    assert_eq!(mapper.get_mapped_to(0x7000), Some(frame));
    assert_eq!(
        mapper.set_page_attributes(0x9000, None, USER, kernel::paging::FlagsModify::Insert),
        Err(MapperError::NotMapped(0x9000))
    );
    assert_eq!(mapper.get_mapped_to(0x7000).unwrap() & !ADDRESS_MASK, 0);
}

#[test]
fn kernel_half_identity() {
    let mut pmm = PhysicalMemoryManager::new(&small_map()).unwrap();
    let mut kernel_mapper = Mapper::new(4, &mut pmm).unwrap();
    kernel_mapper
        .map(&mut pmm, 0xFFFF_8000_0000_0000, 2, 0x0, false, RW | HUGE)
        .unwrap();
    kernel_mapper
        .map(&mut pmm, 0xFFFF_FFFF_8000_0000, 1, 0x20_0000, false, RW)
        .unwrap();
    let kernel = AddressSpace::new(kernel_mapper);
    let user = AddressSpace::new_userspace(&kernel, &mut pmm).unwrap();
    assert_ne!(user.root_frame(), kernel.root_frame());
    assert!(user.is_current(user.root_frame()));
    assert!(!kernel.is_current(user.root_frame()));
    let mut probe_pmm = PhysicalMemoryManager::new(&small_map()).unwrap();
    let _ = &mut probe_pmm;
    assert!(user.is_mmapped(0xFFFF_FFFF_8000_0000));
    assert!(!user.is_mmapped(0x1000));
}

#[test]
fn kernel_half_root_entries() {
    let mut pmm = PhysicalMemoryManager::new(&small_map()).unwrap();
    let mut kernel_mapper = Mapper::new(4, &mut pmm).unwrap();
    kernel_mapper.map(&mut pmm, 0xFFFF_8000_0000_0000, 2, 0x0, false, RW | HUGE).unwrap();
    let kernel_root = kernel_mapper.view_page_table();
    let user_mapper = Mapper::copy_kernel_half(&kernel_mapper, &mut pmm).unwrap();
    let user_root = user_mapper.view_page_table();
    assert_eq!(user_root.len(), 512);
    assert_eq!(&user_root[256..], &kernel_root[256..]);
    assert!(user_root[..256].iter().all(|e| *e == 0));
    assert_ne!(kernel_root[256], 0);
}

#[test]
fn mmap_exact_and_any() {
    let mut pmm = PhysicalMemoryManager::new(&small_map()).unwrap();
    let kernel = AddressSpace::new(Mapper::new(4, &mut pmm).unwrap());
    let mut user = AddressSpace::new_userspace(&kernel, &mut pmm).unwrap();
    assert_eq!(
        user.mmap(&mut pmm, Some(0x40_0000), 2, MmapPermissions::ReadWrite),
        Ok((0x40_0000, 0x2000))
    );
    assert!(user.is_mmapped(0x40_0000));
    assert!(user.is_mmapped(0x40_1000));
    assert_eq!(user.get_flags(0x40_0000), Ok(RW | USER));
    assert_eq!(
        user.mmap(&mut pmm, Some(0x40_1000), 1, MmapPermissions::ReadOnly),
        Err(kernel::address_space::Error::Mapper(MapperError::AlreadyMapped))
    );
    assert_eq!(
        user.mmap(&mut pmm, Some(0x40_0001), 1, MmapPermissions::ReadOnly),
        Err(kernel::address_space::Error::MalformedAddress)
    );
    let (start, len) = user.mmap(&mut pmm, None, 3, MmapPermissions::ReadExecute).unwrap();
    assert_eq!((start, len), (0x1000, 0x3000));
    assert_eq!(user.get_flags(0x2000), Ok(PRESENT | USER));
    assert_eq!(
        user.get_flags(0x9000_0000),
        Err(kernel::address_space::Error::NotMapped(0x9000_0000))
    );
    user.set_flags(0x1000, 3, PRESENT | USER | WRITE).unwrap();
    assert_eq!(user.get_flags(0x3000), Ok(PRESENT | USER | WRITE));
}

#[test]
fn reclaim_keeps_entry_with_stack() {
    let map = vec![
        entry(0x0, 0x50000, EntryType::Usable),
        entry(0x50000, 0x10000, EntryType::BootloaderReclaimable),
        entry(0x60000, 0x10000, EntryType::BootloaderReclaimable),
        entry(0x70000, 0x100000, EntryType::Usable),
    ];
    let mut pmm = PhysicalMemoryManager::new(&map).unwrap();
    for f in (0x50000..0x70000).step_by(4096) {
        assert_eq!(pmm.is_locked(f), Ok(true));
    }
    let stack_pointer = 0x57F00;
    let first_in_use = range_contains_stack(0x50000, 0x60000, stack_pointer);
    let second_in_use = range_contains_stack(0x60000, 0x70000, stack_pointer);
    assert!(first_in_use);
    assert!(!second_in_use);
    reclaim_entry(&mut pmm, 0x50000, 0x60000, first_in_use).unwrap();
    reclaim_entry(&mut pmm, 0x60000, 0x70000, second_in_use).unwrap();
    for f in (0x50000..0x60000).step_by(4096) {
        assert_eq!(pmm.is_locked(f), Ok(true));
    }
    for f in (0x60000..0x70000).step_by(4096) {
        assert_eq!(pmm.is_locked(f), Ok(false));
    }
}

#[test]
fn walker_finds_absent_runs() {
    let mut pmm = PhysicalMemoryManager::new(&small_map()).unwrap();
    let mut mapper = Mapper::new(4, &mut pmm).unwrap();
    mapper.map(&mut pmm, 0x1000, 1, 0x30_0000, false, RW).unwrap();
    mapper.map(&mut pmm, 0x3000, 1, 0x30_1000, false, RW).unwrap();
    assert!(Walker::new(&mapper, 0).is_none());
    assert!(Walker::new(&mapper, 5).is_none());
    let walker = Walker::new(&mapper, 1).unwrap();
    assert_eq!(walker.find_absent_run(&mapper, 1), Some(0));
    assert_eq!(walker.find_absent_run(&mapper, 2), Some(4));
    // A 2 MiB page covers the first 512 leaves.
    let mut huge = Mapper::new(4, &mut pmm).unwrap();
    huge.map(&mut pmm, 0x0, 2, 0x0, false, RW | HUGE).unwrap();
    let walker = Walker::new(&huge, 1).unwrap();
    assert_eq!(walker.find_absent_run(&huge, 1), Some(512));
    // At the 2 MiB level the first entry is taken, the second is free.
    let walker = Walker::new(&huge, 2).unwrap();
    assert_eq!(walker.find_absent_run(&huge, 3), Some(1));
}

#[test]
fn user_space_cannot_touch_kernel_half() {
    let mut pmm = PhysicalMemoryManager::new(&small_map()).unwrap();
    let mut kernel_mapper = Mapper::new(4, &mut pmm).unwrap();
    kernel_mapper
        .map(&mut pmm, 0xFFFF_8000_0000_0000, 1, 0x30_0000, false, RW)
        .unwrap();
    let mut kernel = AddressSpace::new(kernel_mapper);
    let mut user = AddressSpace::new_userspace(&kernel, &mut pmm).unwrap();
    assert_eq!(
        user.set_flags(0xFFFF_8000_0000_0000, 1, PRESENT),
        Err(kernel::address_space::Error::InvalidAddress)
    );
    assert_eq!(user.get_flags(0xFFFF_8000_0000_0000), Ok(RW));
    kernel.set_flags(0xFFFF_8000_0000_0000, 1, PRESENT).unwrap();
    assert_eq!(kernel.get_flags(0xFFFF_8000_0000_0000), Ok(PRESENT));
}

#[test]
fn reclaim_walks_memory_map() {
    let map = vec![
        entry(0x0, 0x50000, EntryType::Usable),
        entry(0x50000, 0x10000, EntryType::BootloaderReclaimable),
        entry(0x60000, 0x10000, EntryType::BootloaderReclaimable),
        entry(0x70000, 0x10000, EntryType::Reserved),
        entry(0x80000, 0x100000, EntryType::Usable),
    ];
    let mut pmm = PhysicalMemoryManager::new(&map).unwrap();
    let in_use = vec![false, true, false, false, false];
    kernel::cpu::reclaim_bootloader_memory(&mut pmm, &map, &in_use).unwrap();
    assert_eq!(pmm.is_locked(0x50000), Ok(true));
    assert_eq!(pmm.is_locked(0x5F000), Ok(true));
    assert_eq!(pmm.is_locked(0x60000), Ok(false));
    assert_eq!(pmm.is_locked(0x6F000), Ok(false));
    assert_eq!(pmm.is_locked(0x70000), Ok(true));
}

#[test]
fn walker_visits_leaves_in_order() {
    let mut pmm = PhysicalMemoryManager::new(&small_map()).unwrap();
    let mut mapper = Mapper::new(4, &mut pmm).unwrap();
    mapper.map(&mut pmm, 0x2000, 1, 0x30_0000, false, RW).unwrap();
    let walker = Walker::new(&mapper, 1).unwrap();
    assert_eq!(walker.leaf(&mapper, 0), None);
    assert_eq!(walker.leaf(&mapper, 2), Some(0x30_0000 | RW));
    assert_eq!(walker.leaf(&mapper, 3), None);
    assert_eq!(walker.leaf(&mapper, 1 << 30), None);
}

#[test]
fn reserved_entry_tail_is_locked() {
    let map = vec![
        entry(0x0, 0x1800, EntryType::Usable),
        entry(0x1800, 0x1000, EntryType::Reserved),
        entry(0x2800, 0x200000, EntryType::Usable),
    ];
    let pmm = PhysicalMemoryManager::new(&map).unwrap();
    assert_eq!(pmm.is_locked(0x1000), Ok(true));
    assert_eq!(pmm.is_locked(0x2000), Ok(true));
    assert_eq!(pmm.is_locked(0x3000), Ok(false));
}

#[test]
fn failed_allocation_leaves_table_unchanged() {
    let mut pmm = PhysicalMemoryManager::new(&small_map()).unwrap();
    let hhdm = HigherHalfDirectMap::new(usize::MAX - 0xFFF).unwrap();
    let before = count_locked(&pmm);
    assert!(KernelAllocator.allocate(&mut pmm, &hhdm, Layout { size: 0x3000, align: 8 }).is_err());
    assert_eq!(count_locked(&pmm), before);
    assert_eq!(pmm.is_locked(0x1000), Ok(false));
}

#[test]
fn new_mapper_locks_its_root() {
    let mut pmm = PhysicalMemoryManager::new(&small_map()).unwrap();
    let mapper = Mapper::new(4, &mut pmm).unwrap();
    assert_eq!(mapper.root_frame(), 0x1000);
    assert_eq!(pmm.is_locked(0x1000), Ok(true));
}

#[test]
fn reclaim_fails_on_unlocked_frames_and_keeps_others() {
    let map = vec![
        entry(0x0, 0x50000, EntryType::Usable),
        entry(0x50000, 0x10000, EntryType::BootloaderReclaimable),
        entry(0x60000, 0x100000, EntryType::Usable),
    ];
    let mut pmm = PhysicalMemoryManager::new(&map).unwrap();
    pmm.free_frame(0x52000).unwrap();
    assert!(kernel::cpu::reclaim_bootloader_memory(&mut pmm, &map, &vec![false, false, false]).is_err());
    assert_eq!(pmm.is_locked(0x60000), Ok(false));
    assert_eq!(pmm.is_locked(0x0), Ok(true));
}
