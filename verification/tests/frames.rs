use frame_allocator::{Frame, FRAME_SIZE, MAX_FRAMES};

fn numbers(start: usize, end: usize) -> Vec<usize> {
    let mut range = Frame::range_inclusive(Frame { number: start }, Frame { number: end });
    let mut out = Vec::new();
    while let Some(frame) = range.next() {
        out.push(frame.number);
    }
    out
}

#[test]
fn constants_have_their_values() {
    assert_eq!(FRAME_SIZE, 4096);
    assert_eq!(MAX_FRAMES, 1 << 20);
}

#[test]
fn containing_address_divides_rounding_down() {
    assert_eq!(Frame::containing_address(0).number, 0);
    assert_eq!(Frame::containing_address(4095).number, 0);
    assert_eq!(Frame::containing_address(4096).number, 1);
    assert_eq!(Frame::containing_address(0x3000).number, 3);
    assert_eq!(Frame::containing_address(0x3fff).number, 3);
    assert_eq!(Frame::containing_address(0x12345).number, 0x12);
    assert_eq!(Frame::containing_address(usize::MAX).number, usize::MAX / 4096);
}

#[test]
fn start_address_multiplies_by_frame_size() {
    assert_eq!(Frame { number: 0 }.start_address(), Some(0));
    assert_eq!(Frame { number: 1 }.start_address(), Some(4096));
    assert_eq!(Frame { number: 0x12 }.start_address(), Some(0x12000));
    assert_eq!(
        Frame { number: usize::MAX / 4096 }.start_address(),
        Some(usize::MAX - 4095)
    );
}

#[test]
fn start_address_is_none_where_it_does_not_fit() {
    assert_eq!(Frame { number: usize::MAX / 4096 + 1 }.start_address(), None);
    assert_eq!(Frame { number: usize::MAX }.start_address(), None);
}

#[test]
fn address_round_trip() {
    for address in [0usize, 1, 4095, 4096, 4097, 0x7fff_ffff, 0xdead_beef] {
        let frame = Frame::containing_address(address);
        let start = frame.start_address().unwrap();
        assert!(start <= address && address - start < FRAME_SIZE);
        assert_eq!(Frame::containing_address(start), frame);
    }
}

#[test]
fn frames_are_equal_by_number() {
    assert_eq!(Frame { number: 7 }, Frame { number: 7 });
    assert_ne!(Frame { number: 7 }, Frame { number: 8 });
    assert_eq!(Frame::containing_address(0x7000), Frame::containing_address(0x7fff));
}

#[test]
fn frames_are_ordered_by_number() {
    assert!(Frame { number: 1 } < Frame { number: 2 });
    assert!(Frame { number: 2 } > Frame { number: 1 });
    assert!(Frame { number: 2 } <= Frame { number: 2 });
    assert_eq!(
        Frame { number: 3 }.max(Frame { number: 9 }),
        Frame { number: 9 }
    );
}

#[test]
fn range_inclusive_yields_both_ends() {
    assert_eq!(numbers(3, 6), vec![3, 4, 5, 6]);
    assert_eq!(numbers(0, 0), vec![0]);
    assert_eq!(numbers(15, 15), vec![15]);
}

#[test]
fn range_inclusive_is_empty_when_end_is_below_start() {
    assert_eq!(numbers(4, 3), Vec::<usize>::new());
    assert_eq!(numbers(1, 0), Vec::<usize>::new());
    let range = Frame::range_inclusive(Frame { number: 9 }, Frame { number: 2 });
    assert!(range.is_empty());
}

#[test]
fn range_inclusive_reaches_the_largest_number() {
    assert_eq!(numbers(usize::MAX - 2, usize::MAX), vec![usize::MAX - 2, usize::MAX - 1, usize::MAX]);
    assert_eq!(numbers(usize::MAX, usize::MAX), vec![usize::MAX]);
}

#[test]
fn range_stays_empty_once_drained() {
    let mut range = Frame::range_inclusive(Frame { number: 1 }, Frame { number: 2 });
    assert!(!range.is_empty());
    assert_eq!(range.next(), Some(Frame { number: 1 }));
    assert_eq!(range.next(), Some(Frame { number: 2 }));
    assert!(range.is_empty());
    assert_eq!(range.next(), None);
    assert_eq!(range.next(), None);
}

#[test]
fn range_can_be_restarted_from_a_copy() {
    let range = Frame::range_inclusive(Frame { number: 5 }, Frame { number: 7 });
    let mut first = range;
    let mut second = range;
    assert_eq!(first.next(), Some(Frame { number: 5 }));
    assert_eq!(first.next(), Some(Frame { number: 6 }));
    assert_eq!(second.next(), Some(Frame { number: 5 }));
}
