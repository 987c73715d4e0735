use frame_allocator::{
    area_fits, boot_map_fits, init, BitmapFrameAllocator, Frame, FrameAllocator, MemoryArea,
};

fn reserved_bits(allocator: &BitmapFrameAllocator) -> Vec<bool> {
    (0..allocator.capacity())
        .map(|number| allocator.is_reserved(Frame { number }))
        .collect()
}

#[test]
fn init_frees_the_areas_and_then_reserves_the_kernel() {
    let mut allocator = BitmapFrameAllocator::with_capacity(16);
    let areas = vec![
        MemoryArea { base_addr: 0, length: 0x4000 },
        MemoryArea { base_addr: 0x8000, length: 0x4000 },
    ];
    assert!(boot_map_fits(&allocator, &areas, 0x2800));
    init(&mut allocator, &areas, 0x2800);
    assert_eq!(
        reserved_bits(&allocator),
        vec![
            true, true, true, false, true, true, true, true, false, false, false, false, true,
            true, true, true
        ]
    );
    assert_eq!(allocator.next_free_frame(), 3);
    assert!(allocator.is_initialized());
    assert_eq!(allocator.allocate_frame(), Some(Frame { number: 3 }));
    assert_eq!(allocator.allocate_frame(), Some(Frame { number: 8 }));
}

#[test]
fn init_reserves_the_kernel_whatever_the_map_says() {
    let mut allocator = BitmapFrameAllocator::with_capacity(16);
    let areas = vec![MemoryArea { base_addr: 0, length: 0x10000 }];
    init(&mut allocator, &areas, 0x10000);
    assert_eq!(reserved_bits(&allocator), vec![true; 16]);
    assert_eq!(allocator.allocate_frame(), None);
}

#[test]
fn init_with_kernel_below_the_first_area_puts_the_hint_behind_the_kernel() {
    let mut allocator = BitmapFrameAllocator::with_capacity(16);
    let areas = vec![MemoryArea { base_addr: 0x6000, length: 0x2000 }];
    init(&mut allocator, &areas, 0x2000);
    assert_eq!(allocator.next_free_frame(), 2);
    assert_eq!(allocator.allocate_frame(), Some(Frame { number: 6 }));
    assert_eq!(allocator.allocate_frame(), Some(Frame { number: 7 }));
    assert_eq!(allocator.allocate_frame(), None);
}

#[test]
fn init_takes_later_areas_below_earlier_ones() {
    let mut allocator = BitmapFrameAllocator::with_capacity(16);
    let areas = vec![
        MemoryArea { base_addr: 0xa000, length: 0x1000 },
        MemoryArea { base_addr: 0x4000, length: 0x1000 },
        MemoryArea { base_addr: 0x7000, length: 0 },
    ];
    init(&mut allocator, &areas, 0x1000);
    assert_eq!(allocator.allocate_frame(), Some(Frame { number: 4 }));
    assert_eq!(allocator.allocate_frame(), Some(Frame { number: 10 }));
    assert_eq!(allocator.allocate_frame(), None);
}

#[test]
fn init_without_areas_leaves_everything_reserved() {
    let mut allocator = BitmapFrameAllocator::with_capacity(16);
    let areas: Vec<MemoryArea> = Vec::new();
    assert!(boot_map_fits(&allocator, &areas, 0x1000));
    init(&mut allocator, &areas, 0x1000);
    assert_eq!(reserved_bits(&allocator), vec![true; 16]);
    assert_eq!(allocator.next_free_frame(), 1);
    assert!(allocator.is_initialized());
}

#[test]
fn init_with_an_empty_kernel_reserves_nothing_more() {
    let mut allocator = BitmapFrameAllocator::with_capacity(4);
    let areas = vec![MemoryArea { base_addr: 0, length: 0x4000 }];
    init(&mut allocator, &areas, 0);
    assert_eq!(reserved_bits(&allocator), vec![false; 4]);
    assert_eq!(allocator.next_free_frame(), 0);
    assert!(allocator.is_initialized());
}

#[test]
fn area_fits_tells_areas_within_the_capacity() {
    let allocator = BitmapFrameAllocator::with_capacity(16);
    assert!(area_fits(&allocator, &MemoryArea { base_addr: 0, length: 0x10000 }));
    assert!(area_fits(&allocator, &MemoryArea { base_addr: 0xffff, length: 1 }));
    assert!(area_fits(&allocator, &MemoryArea { base_addr: 0x20000, length: 0 }));
    assert!(area_fits(&allocator, &MemoryArea { base_addr: u64::MAX, length: 0 }));
    assert!(!area_fits(&allocator, &MemoryArea { base_addr: 0, length: 0x10001 }));
    assert!(!area_fits(&allocator, &MemoryArea { base_addr: 0x10000, length: 1 }));
    assert!(!area_fits(&allocator, &MemoryArea { base_addr: u64::MAX, length: 1 }));
    assert!(!area_fits(&allocator, &MemoryArea { base_addr: u64::MAX, length: 2 }));
    assert!(!area_fits(&allocator, &MemoryArea { base_addr: 1, length: u64::MAX }));
}

#[test]
fn boot_map_fits_checks_every_area_and_the_kernel() {
    let allocator = BitmapFrameAllocator::with_capacity(16);
    let inside = MemoryArea { base_addr: 0x1000, length: 0x2000 };
    let outside = MemoryArea { base_addr: 0xf000, length: 0x1001 };
    assert!(boot_map_fits(&allocator, &vec![inside, inside], 0x10000));
    assert!(boot_map_fits(&allocator, &vec![], 0));
    assert!(!boot_map_fits(&allocator, &vec![inside, inside], 0x10001));
    assert!(!boot_map_fits(&allocator, &vec![outside], 0x1000));
    assert!(!boot_map_fits(&allocator, &vec![inside, outside], 0x1000));
    assert!(!boot_map_fits(&allocator, &vec![outside, inside], 0x1000));
}

#[test]
fn memory_areas_are_equal_by_their_fields() {
    let area = MemoryArea { base_addr: 0x1000, length: 0x2000 };
    assert_eq!(area, MemoryArea { base_addr: 0x1000, length: 0x2000 });
    assert_ne!(area, MemoryArea { base_addr: 0x1000, length: 0x2001 });
}
