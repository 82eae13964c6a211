use kernel::allocator::{
    init, seedable, Allocator, Chunk, Region, RegionKind, CHUNK_LIMIT,
};

const MIB: u64 = 0x10_0000;

fn chunks(allocator: &Allocator) -> Vec<(u64, u64)> {
    let mut found = Vec::new();
    for index in 0..CHUNK_LIMIT {
        let chunk = allocator.chunk(index).unwrap();
        if !chunk.is_empty() {
            found.push((chunk.base, chunk.length));
        }
    }
    found
}

fn total(allocator: &Allocator) -> u64 {
    chunks(allocator).iter().map(|chunk| chunk.1).sum()
}

fn booted(regions: &[Region], offset: u64) -> Allocator {
    let mut allocator = Allocator::new();
    assert!(seedable(&allocator, regions, offset));
    init(&mut allocator, regions, offset);
    allocator
}

fn one_region() -> Allocator {
    booted(&[Region::new(MIB, MIB, RegionKind::Usable)], 0)
}

fn allocate(allocator: &mut Allocator, size: u64, align: u64) -> u64 {
    assert!(allocator.fits(size, align));
    allocator.allocate(size, align)
}

fn free(allocator: &mut Allocator, address: u64, size: u64) {
    assert!(allocator.releasable(address, size));
    allocator.free(address, size);
}

#[test]
fn new_allocator_has_no_chunk() {
    let allocator = Allocator::new();
    assert!(chunks(&allocator).is_empty());
    assert!(allocator.chunk(CHUNK_LIMIT).is_none());
    assert_eq!(allocator.vacant_slot(), Some(0));
}

#[test]
fn is_tidy_tells_a_tidy_list() {
    assert!(Allocator::new().is_tidy());
    assert!(one_region().is_tidy());
    let mut touching = Allocator::new();
    touching.push(Chunk::new(0x2000, 0x100));
    touching.push(Chunk::new(0x1f00, 0x100));
    assert!(!touching.is_tidy());
    touching.merge();
    assert!(touching.is_tidy());
    let mut unsorted = Allocator::new();
    unsorted.push(Chunk::new(0x1000, 0x100));
    unsorted.push(Chunk::new(0x3000, 0x100));
    assert!(!unsorted.is_tidy());
    let mut stub = Allocator::new();
    stub.push(Chunk::new(0x1000, 0));
    assert!(!stub.is_tidy());
    let mut beyond = Allocator::new();
    beyond.push(Chunk::new(u64::MAX, 2));
    assert!(!beyond.is_tidy());
    let mut gap = Allocator::new();
    gap.push(Chunk::new(0, 0));
    gap.push(Chunk::new(0x1000, 0x100));
    assert!(gap.is_tidy());
    let mut hole = Allocator::new();
    hole.map(|_| true);
    hole.map(|chunk| {
        *chunk = Chunk::new(0, 0);
        false
    });
    assert!(hole.is_tidy());
}

#[test]
fn chunk_is_empty_only_when_both_fields_are_zero() {
    assert!(Chunk::new(0, 0).is_empty());
    assert!(!Chunk::new(0, 1).is_empty());
    assert!(!Chunk::new(1, 0).is_empty());
}

#[test]
fn init_takes_the_usable_regions_at_their_offset() {
    let regions = [
        Region::new(0x1000, 0x2000, RegionKind::Usable),
        Region::new(0x3000, 0x1000, RegionKind::Reserved),
        Region::new(0x8000, 0x1000, RegionKind::Usable),
    ];
    let allocator = booted(&regions, 0xffff_8000_0000_0000);
    assert_eq!(
        chunks(&allocator),
        vec![(0xffff_8000_0000_8000, 0x1000), (0xffff_8000_0000_1000, 0x2000)]
    );
}

#[test]
fn init_joins_regions_that_touch() {
    let regions = [
        Region::new(0x1000, 0x1000, RegionKind::Usable),
        Region::new(0x2000, 0x1000, RegionKind::Usable),
    ];
    let allocator = booted(&regions, 0);
    assert_eq!(chunks(&allocator), vec![(0x1000, 0x2000)]);
}

#[test]
fn init_refuses_what_cannot_be_seeded() {
    let allocator = Allocator::new();
    let overlapping = [
        Region::new(0x1000, 0x2000, RegionKind::Usable),
        Region::new(0x2000, 0x2000, RegionKind::Usable),
    ];
    assert!(!seedable(&allocator, &overlapping, 0));
    let beyond = [Region::new(u64::MAX - 0x10, 0x20, RegionKind::Usable)];
    assert!(!seedable(&allocator, &beyond, 0));
    let shifted_beyond = [Region::new(0x1000, 0x1000, RegionKind::Usable)];
    assert!(!seedable(&allocator, &shifted_beyond, u64::MAX - 0x1800));
    let reserved_overlap = [
        Region::new(0x1000, 0x2000, RegionKind::Usable),
        Region::new(0x2000, 0x2000, RegionKind::Reserved),
    ];
    assert!(seedable(&allocator, &reserved_overlap, 0));
    let many: Vec<Region> = (0..(CHUNK_LIMIT as u64 + 1))
        .map(|index| Region::new(0x1000 + index * 0x2000, 0x1000, RegionKind::Usable))
        .collect();
    assert!(!seedable(&allocator, &many, 0));
    assert!(seedable(&allocator, &many[..CHUNK_LIMIT], 0));
    let seeded = one_region();
    assert!(!seedable(&seeded, &[Region::new(MIB + 0x100, 0x10, RegionKind::Usable)], 0));
    assert!(seedable(&seeded, &[Region::new(3 * MIB, 0x10, RegionKind::Usable)], 0));
}

#[test]
fn allocate_cuts_from_the_top_of_the_longest_chunk() {
    let mut allocator = booted(
        &[
            Region::new(0x1000, 0x100, RegionKind::Usable),
            Region::new(0x4000, 0x200, RegionKind::Usable),
        ],
        0,
    );
    assert_eq!(allocator.largest(), Some(0));
    let address = allocate(&mut allocator, 0x40, 0x40);
    assert_eq!(address, 0x41c0);
    assert_eq!(chunks(&allocator), vec![(0x4000, 0x1c0), (0x1000, 0x100)]);
}

#[test]
fn allocate_keeps_the_bytes_skipped_for_alignment() {
    let mut allocator = booted(&[Region::new(0x1000, 0x100, RegionKind::Usable)], 0);
    let address = allocate(&mut allocator, 0x10, 0x40);
    assert_eq!(address, 0x10c0);
    assert_eq!(chunks(&allocator), vec![(0x10d0, 0x30), (0x1000, 0xc0)]);
}

#[test]
fn allocate_returns_multiples_of_the_alignment() {
    let mut allocator = one_region();
    for (size, align) in [(1u64, 1u64), (3, 2), (24, 8), (100, 64), (7, 4096), (160, 128)] {
        let address = allocate(&mut allocator, size, align);
        assert_eq!(address % align, 0);
        assert!(address >= MIB && address + size <= 2 * MIB);
    }
}

#[test]
fn allocate_of_a_whole_chunk_gives_its_slot_back() {
    let mut allocator = booted(&[Region::new(0x1000, 0x100, RegionKind::Usable)], 0);
    let address = allocate(&mut allocator, 0x100, 0x100);
    assert_eq!(address, 0x1000);
    assert!(chunks(&allocator).is_empty());
    assert_eq!(allocator.vacant_slot(), Some(0));
    free(&mut allocator, address, 0x100);
    assert_eq!(chunks(&allocator), vec![(0x1000, 0x100)]);
}

#[test]
fn allocate_of_nothing_changes_nothing() {
    let mut allocator = booted(&[Region::new(0x1000, 0x105, RegionKind::Usable)], 0);
    let address = allocate(&mut allocator, 0, 0x10);
    assert_eq!(address, 0x1100);
    assert_eq!(chunks(&allocator), vec![(0x1000, 0x105)]);
    let mut empty = Allocator::new();
    assert_eq!(allocate(&mut empty, 0, 8), 0);
}

#[test]
fn fits_tells_when_memory_runs_out() {
    let mut allocator = booted(&[Region::new(0x1008, 0x100, RegionKind::Usable)], 0);
    assert!(allocator.fits(0x100, 8));
    assert!(!allocator.fits(0x101, 1));
    assert!(!allocator.fits(0x100, 0x10));
    assert!(allocator.fits(0xf8, 0x10));
    assert!(!allocator.fits(0x10, 0));
    assert!(!Allocator::new().fits(1, 1));
    let address = allocate(&mut allocator, 0x100, 8);
    assert_eq!(address, 0x1008);
    assert!(!allocator.fits(1, 1));
}

#[test]
fn fits_needs_a_slot_for_the_skipped_bytes() {
    let regions: Vec<Region> = (0..CHUNK_LIMIT as u64)
        .map(|index| Region::new(0x1001 + index * 0x1000, 0x100 + index, RegionKind::Usable))
        .collect();
    let mut allocator = booted(&regions, 0);
    assert_eq!(allocator.vacant_slot(), None);
    assert_eq!(allocator.largest(), Some(0));
    assert!(!allocator.fits(0x10, 0x10));
    assert!(allocator.fits(0x10, 1));
    assert!(!allocator.releasable(0x10, 0x10));
    let address = allocate(&mut allocator, 0x10, 4);
    assert_eq!(address % 4, 0);
}

#[test]
fn free_joins_the_block_to_its_neighbours() {
    let mut allocator = booted(
        &[
            Region::new(0x1000, 0x100, RegionKind::Usable),
            Region::new(0x1200, 0x100, RegionKind::Usable),
        ],
        0,
    );
    free(&mut allocator, 0x1100, 0x100);
    assert_eq!(chunks(&allocator), vec![(0x1000, 0x300)]);
}

#[test]
fn free_of_nothing_changes_nothing() {
    let mut allocator = one_region();
    free(&mut allocator, 0x5000, 0);
    free(&mut allocator, 0, 0);
    assert_eq!(chunks(&allocator), vec![(MIB, MIB)]);
}

#[test]
fn releasable_refuses_what_is_free_or_out_of_range() {
    let allocator = one_region();
    assert!(allocator.releasable(0x1000, 0x100));
    assert!(allocator.releasable(MIB - 0x100, 0x100));
    assert!(allocator.releasable(2 * MIB, 0x100));
    assert!(!allocator.releasable(MIB - 0x100, 0x101));
    assert!(!allocator.releasable(MIB + 0x10, 1));
    assert!(!allocator.releasable(2 * MIB - 1, 0x10));
    assert!(!allocator.releasable(0x1000, 3 * MIB));
    assert!(!allocator.releasable(u64::MAX, 1));
    assert!(allocator.releasable(u64::MAX - 1, 1));
}

#[test]
fn largest_is_the_last_among_equals() {
    let allocator = booted(
        &[
            Region::new(0x1000, 0x100, RegionKind::Usable),
            Region::new(0x3000, 0x100, RegionKind::Usable),
            Region::new(0x5000, 0x80, RegionKind::Usable),
        ],
        0,
    );
    assert_eq!(
        chunks(&allocator),
        vec![(0x5000, 0x80), (0x3000, 0x100), (0x1000, 0x100)]
    );
    assert_eq!(allocator.largest(), Some(2));
    assert_eq!(Allocator::new().largest(), Some(CHUNK_LIMIT - 1));
}

#[test]
fn push_fills_the_first_unused_slot() {
    let mut allocator = Allocator::new();
    allocator.push(Chunk::new(0x1000, 0x10));
    allocator.push(Chunk::new(0x3000, 0x10));
    assert_eq!(allocator.chunk(0).unwrap().base, 0x1000);
    assert_eq!(allocator.chunk(1).unwrap().base, 0x3000);
    assert_eq!(allocator.vacant_slot(), Some(2));
    for index in 0..CHUNK_LIMIT as u64 {
        allocator.push(Chunk::new(0x10_0000 + index * 0x100, 0x10));
    }
    assert_eq!(allocator.vacant_slot(), None);
    assert_eq!(allocator.chunk(CHUNK_LIMIT - 1).unwrap().base, 0x10_0000 + 97 * 0x100);
}

#[test]
fn cleanup_sorts_joins_and_drops_chunks_without_bytes() {
    let mut allocator = Allocator::new();
    allocator.push(Chunk::new(0x1000, 0x100));
    allocator.push(Chunk::new(0x5000, 0));
    allocator.push(Chunk::new(0x1200, 0x100));
    allocator.push(Chunk::new(0x1100, 0x100));
    allocator.push(Chunk::new(0x9000, 0x10));
    allocator.cleanup();
    assert_eq!(chunks(&allocator), vec![(0x9000, 0x10), (0x1000, 0x300)]);
    assert_eq!(allocator.vacant_slot(), Some(2));
}

#[test]
fn merge_joins_a_whole_chain() {
    let mut allocator = Allocator::new();
    for index in (0..CHUNK_LIMIT as u64).rev() {
        allocator.push(Chunk::new(0x1000 + index * 0x10, 0x10));
    }
    allocator.merge();
    assert_eq!(chunks(&allocator), vec![(0x1000, 0x10 * CHUNK_LIMIT as u64)]);
}

#[test]
fn map_visits_up_to_the_first_stop() {
    let mut allocator = booted(
        &[
            Region::new(0x1000, 0x100, RegionKind::Usable),
            Region::new(0x3000, 0x100, RegionKind::Usable),
            Region::new(0x5000, 0x100, RegionKind::Usable),
        ],
        0,
    );
    allocator.map(|chunk| {
        chunk.length += 1;
        chunk.base == 0x3000
    });
    assert_eq!(
        chunks(&allocator),
        vec![(0x5000, 0x101), (0x3000, 0x101), (0x1000, 0x100)]
    );
    allocator.map(|_| false);
    assert_eq!(
        chunks(&allocator),
        vec![(0x5000, 0x101), (0x3000, 0x101), (0x1000, 0x100)]
    );
}

#[test]
fn chunks_never_overlap() {
    let mut allocator = one_region();
    let mut blocks = Vec::new();
    for round in 0..40u64 {
        let size = 16 + 24 * round;
        let align = 1 << (round % 8);
        blocks.push((allocate(&mut allocator, size, align), size));
        if round % 3 == 2 {
            let (address, size) = blocks.remove(0);
            free(&mut allocator, address, size);
        }
        let list = chunks(&allocator);
        for pair in list.windows(2) {
            assert!(pair[1].0 + pair[1].1 < pair[0].0);
        }
        for (address, size) in &blocks {
            for chunk in &list {
                assert!(address + size <= chunk.0 || chunk.0 + chunk.1 <= *address);
            }
        }
    }
}

#[test]
fn free_and_allocated_bytes_add_up_to_the_usable_memory() {
    let mut allocator = one_region();
    let mut in_flight = 0;
    let mut blocks = Vec::new();
    for round in 0..30u64 {
        let size = 40 + 8 * round;
        blocks.push((allocate(&mut allocator, size, 64), size));
        in_flight += size;
        assert_eq!(total(&allocator) + in_flight, MIB);
    }
    for (address, size) in blocks {
        free(&mut allocator, address, size);
        in_flight -= size;
        assert_eq!(total(&allocator) + in_flight, MIB);
    }
    assert_eq!(chunks(&allocator), vec![(MIB, MIB)]);
}

#[test]
fn two_blocks_of_one_chunk_join_again_when_freed() {
    let size = 0x300;
    for order in [false, true] {
        let mut allocator = booted(
            &[
                Region::new(0x1000, 0x100, RegionKind::Usable),
                Region::new(0x4000, 0x1000, RegionKind::Usable),
            ],
            0,
        );
        let first = allocate(&mut allocator, size, 0x200);
        let second = allocate(&mut allocator, size, 0x200);
        assert!(0x4000 <= second && second + size <= first && first + size <= 0x5000);
        if order {
            free(&mut allocator, first, size);
            free(&mut allocator, second, size);
        } else {
            free(&mut allocator, second, size);
            free(&mut allocator, first, size);
        }
        let largest = allocator.chunk(allocator.largest().unwrap()).unwrap();
        assert!(largest.length >= 2 * size);
        assert_eq!(chunks(&allocator), vec![(0x4000, 0x1000), (0x1000, 0x100)]);
    }
}

#[test]
fn boot_scenario_ends_with_the_one_region_whole() {
    let mut allocator = one_region();
    assert_eq!(chunks(&allocator), vec![(MIB, MIB)]);
    let first = allocate(&mut allocator, 160, 128);
    let second = allocate(&mut allocator, 96, 128);
    assert_eq!(first, 2 * MIB - 256);
    assert_eq!(second, 2 * MIB - 384);
    free(&mut allocator, first, 160);
    free(&mut allocator, second, 96);
    assert_eq!(chunks(&allocator), vec![(MIB, MIB)]);
    assert_eq!(allocator.vacant_slot(), Some(1));
}
