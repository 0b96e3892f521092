use osboot::memory::{pages_needed, MemoryDescriptor, UefiLegacyFrameAllocator};

const CONVENTIONAL: u32 = 7;
const LOADER_DATA: u32 = 2;

fn desc(ty: u32, phys_start: u64, page_count: u64) -> MemoryDescriptor {
    MemoryDescriptor { ty, phys_start, page_count }
}

fn drain(alloc: &mut UefiLegacyFrameAllocator) -> Vec<u64> {
    let mut out = Vec::new();
    while let Some(f) = alloc.allocate_frame() {
        out.push(f);
    }
    out
}

#[test]
fn frames_come_from_conventional_regions_above_2mib() {
    let map = vec![
        desc(CONVENTIONAL, 0x1000, 4),          // wholly below 2 MiB
        desc(LOADER_DATA, 0x20_0000, 2),        // not free
        desc(CONVENTIONAL, 0x1F_F000, 3),       // straddles 2 MiB
        desc(CONVENTIONAL, 0x40_0000, 2),
    ];
    let mut alloc = UefiLegacyFrameAllocator::new(map);
    let frames = drain(&mut alloc);
    assert_eq!(frames, vec![0x20_0000, 0x20_1000, 0x40_0000, 0x40_1000]);
}

#[test]
fn exhaustion_is_final() {
    let mut alloc = UefiLegacyFrameAllocator::new(vec![desc(CONVENTIONAL, 0x30_0000, 1)]);
    assert_eq!(alloc.allocate_frame(), Some(0x30_0000));
    assert_eq!(alloc.allocate_frame(), None);
    assert_eq!(alloc.allocate_frame(), None);
    assert_eq!(alloc.allocate_frame(), None);
}

#[test]
fn empty_map_gives_no_frames() {
    let mut alloc = UefiLegacyFrameAllocator::new(Vec::new());
    assert_eq!(alloc.allocate_frame(), None);
    assert_eq!(alloc.max_physical_address(), 0);
}

#[test]
fn unaligned_free_address_gives_containing_frame() {
    // the region starts one byte into a frame: the frame that holds it is handed out
    let mut alloc = UefiLegacyFrameAllocator::new(vec![desc(CONVENTIONAL, 0x20_0001, 2)]);
    assert_eq!(alloc.allocate_frame(), Some(0x20_0000));
    assert_eq!(alloc.allocate_frame(), Some(0x20_1000));
    assert_eq!(alloc.allocate_frame(), None);
}

#[test]
fn frames_strictly_increase_even_over_overlapping_regions() {
    let map = vec![
        desc(CONVENTIONAL, 0x50_0000, 2),
        desc(CONVENTIONAL, 0x40_0000, 3), // lies below the walk: skipped
        desc(CONVENTIONAL, 0x50_1000, 2), // overlaps: continues past what was given
    ];
    let mut alloc = UefiLegacyFrameAllocator::new(map);
    let frames = drain(&mut alloc);
    assert_eq!(frames, vec![0x50_0000, 0x50_1000, 0x50_2000]);
    for pair in frames.windows(2) {
        assert!(pair[0] + 4096 <= pair[1]);
    }
}

#[test]
fn max_physical_address_is_highest_region_end() {
    let map = vec![
        desc(LOADER_DATA, 0x100_0000, 16),
        desc(CONVENTIONAL, 0x20_0000, 1),
        desc(CONVENTIONAL, 0x80_0000, 0x100),
    ];
    let alloc = UefiLegacyFrameAllocator::new(map);
    assert_eq!(alloc.max_physical_address(), 0x100_0000 + 16 * 4096);
}

#[test]
fn pages_needed_rounds_up() {
    assert_eq!(pages_needed(0), 0);
    assert_eq!(pages_needed(1), 1);
    assert_eq!(pages_needed(4096), 1);
    assert_eq!(pages_needed(4097), 2);
    assert_eq!(pages_needed(3 * 4096), 3);
}

#[test]
fn range_checks_on_the_map() {
    let ok = UefiLegacyFrameAllocator::new(vec![desc(CONVENTIONAL, 0x20_0000, 4)]);
    assert!(ok.usable_regions_in_range());
    assert!(ok.regions_in_range());
    assert_eq!(ok.descriptors(), &[desc(CONVENTIONAL, 0x20_0000, 4)][..]);
    // a free region that reaches past 52 bits
    let high = UefiLegacyFrameAllocator::new(vec![desc(CONVENTIONAL, 0x000F_FFFF_FFFF_F000, 2)]);
    assert!(!high.usable_regions_in_range());
    assert!(high.regions_in_range());
    // the same region, but not free: allocation does not care
    let reserved = UefiLegacyFrameAllocator::new(vec![desc(LOADER_DATA, 0x000F_FFFF_FFFF_F000, 2)]);
    assert!(reserved.usable_regions_in_range());
    // a region whose end overflows 64 bits
    let wrap = UefiLegacyFrameAllocator::new(vec![desc(LOADER_DATA, u64::MAX - 4095, 2)]);
    assert!(!wrap.regions_in_range());
    // exactly at the limit
    let edge = UefiLegacyFrameAllocator::new(vec![desc(CONVENTIONAL, 0x000F_FFFF_FFFF_F000, 1)]);
    assert!(edge.usable_regions_in_range());
}

#[test]
fn frames_lie_below_max_physical_address() {
    let map = vec![
        desc(CONVENTIONAL, 0x20_0000, 3),
        desc(LOADER_DATA, 0x90_0000, 1),
        desc(CONVENTIONAL, 0x60_0000, 2),
    ];
    let mut alloc = UefiLegacyFrameAllocator::new(map);
    let max = alloc.max_physical_address();
    assert_eq!(max, 0x90_1000);
    let frames = drain(&mut alloc);
    assert_eq!(frames, vec![0x20_0000, 0x20_1000, 0x20_2000, 0x60_0000, 0x60_1000]);
    assert!(frames.iter().all(|f| *f < max && *f >= 0x20_0000));
}
