use blog_os::memory::{init_frame_allocator, MemoryRegion, MemoryRegionType, PhysFrame};

fn region(start: u64, end: u64, region_type: MemoryRegionType) -> MemoryRegion {
    MemoryRegion { start_frame_number: start, end_frame_number: end, region_type }
}

#[test]
fn frames_come_from_usable_regions_in_order() {
    let map = vec![
        region(0, 1, MemoryRegionType::FrameZero),
        region(1, 3, MemoryRegionType::Usable),
        region(3, 5, MemoryRegionType::Kernel),
        region(5, 7, MemoryRegionType::Usable),
    ];
    let mut a = init_frame_allocator(map);
    let mut got = Vec::new();
    while let Some(f) = a.allocate_frame() {
        got.push(f.start_address());
    }
    assert_eq!(got, vec![0x1000, 0x2000, 0x5000, 0x6000]);
    assert_eq!(a.allocate_frame(), None);
}

#[test]
fn unsorted_map_still_ascends() {
    let map = vec![
        region(10, 12, MemoryRegionType::Usable),
        region(2, 4, MemoryRegionType::Usable),
        region(3, 11, MemoryRegionType::Reserved),
    ];
    let mut a = init_frame_allocator(map);
    let mut got = Vec::new();
    while let Some(f) = a.allocate_frame() {
        got.push(f.number);
    }
    assert_eq!(got, vec![2, 3, 10, 11]);
}

#[test]
fn no_usable_region_gives_nothing() {
    let mut a = init_frame_allocator(vec![region(0, 100, MemoryRegionType::Reserved)]);
    assert_eq!(a.allocate_frame(), None);
    let mut b = init_frame_allocator(Vec::new());
    assert_eq!(b.allocate_frame(), None);
}

#[test]
fn frame_start_address() {
    assert_eq!(PhysFrame { number: 0xb8 }.start_address(), 0xb8000);
    assert_eq!(PhysFrame { number: 0 }.start_address(), 0);
}
