use wild_macho::layout::{count_sections_for_segment, get_segment_sections, OrderEvent};
use wild_macho::section_copy::{copy_live_subsections, LiveRange, SectionCopyError};

#[test]
fn segment_sections_are_those_placed_while_it_is_open() {
    let order = [
        OrderEvent::Section(0),
        OrderEvent::SegmentStart(1),
        OrderEvent::Section(1),
        OrderEvent::Section(2),
        OrderEvent::SegmentEnd(1),
        OrderEvent::SegmentStart(2),
        OrderEvent::Section(3),
        OrderEvent::Section(4),
        OrderEvent::Section(9),
        OrderEvent::SegmentEnd(2),
        OrderEvent::SegmentStart(1),
        OrderEvent::Section(5),
    ];
    // Section 2 has no header; section 9 is past the table.
    let has_header = [true, true, false, true, true, true];
    assert_eq!(get_segment_sections(&order, 1, &has_header), vec![1]);
    assert_eq!(get_segment_sections(&order, 2, &has_header), vec![3, 4]);
    assert!(get_segment_sections(&order, 3, &has_header).is_empty());
    // A segment that never closes runs to the end of the order.
    let open_ended = [OrderEvent::SegmentStart(7), OrderEvent::Section(0), OrderEvent::Section(5)];
    assert_eq!(get_segment_sections(&open_ended, 7, &has_header), vec![0, 5]);
    assert_eq!(count_sections_for_segment(&has_header), 5);
    assert_eq!(count_sections_for_segment(&[]), 0);
}

#[test]
fn live_subsections_are_compacted_at_their_alignment() {
    let input = b"ABCDEFGH";
    let ranges = [
        LiveRange { start: 0, end: 3, alignment_exponent: 0 },
        LiveRange { start: 4, end: 6, alignment_exponent: 2 },
        LiveRange { start: 6, end: 10, alignment_exponent: 0 },
    ];
    let mut out = vec![0xffu8; 10];
    copy_live_subsections(input, &ranges, &mut out).unwrap();
    assert_eq!(out, b"ABC\0EFGH\0\0".to_vec());

    let mut larger = vec![0xffu8; 12];
    assert_eq!(copy_live_subsections(input, &ranges, &mut larger), Err(SectionCopyError::SizeMismatch));
    assert_eq!(larger, vec![0xffu8; 12]);
    let mut smaller = vec![0xffu8; 8];
    assert_eq!(copy_live_subsections(input, &ranges, &mut smaller), Err(SectionCopyError::ExceedsAllocation));
    let backwards = [LiveRange { start: 5, end: 4, alignment_exponent: 0 }];
    assert_eq!(copy_live_subsections(input, &backwards, &mut out), Err(SectionCopyError::InvalidRange));
    let mut empty: Vec<u8> = Vec::new();
    assert_eq!(copy_live_subsections(input, &[], &mut empty), Ok(()));
}
