use wild_macho::headers::MACHO_START_MEM_ADDRESS;
use wild_macho::output_section_id::{
    built_in_section_details, is_custom, Alignment, OutputKind, OutputSections, RelocationModel,
    SectionIdentity, EH_FRAME, GOT, NUM_BUILT_IN_SECTIONS, OBJC_CONST_SELECTOR_REFERENCES,
    OBJC_SELECTOR_REFERENCES, TEXT,
};
use wild_macho::segment::SegmentName;

fn static_sections() -> OutputSections {
    OutputSections::with_base_address(
        MACHO_START_MEM_ADDRESS,
        OutputKind::StaticExecutable(RelocationModel::NonRelocatable),
    )
}

#[test]
fn regular_text_section_requires_the_text_segment_identity() {
    let mut output_sections = static_sections();
    let text_identity = SectionIdentity::new(b"__text", Some(SegmentName::text()));
    let text_id = output_sections.add_named_section(text_identity, Alignment { exponent: 2 });
    assert_eq!(text_id, TEXT);

    let data_identity = SectionIdentity::new(b"__text", Some(SegmentName::data()));
    let data_id = output_sections.add_named_section(data_identity, Alignment { exponent: 2 });
    assert_ne!(data_id, TEXT);
    assert!(is_custom(data_id));
}

#[test]
fn adding_a_custom_section_twice_gives_the_same_id() {
    let mut sections = static_sections();
    let first = sections.add_named_section(
        SectionIdentity::new(b"__mydata", Some(SegmentName::data())),
        Alignment { exponent: 3 },
    );
    let second = sections.add_named_section(
        SectionIdentity::new(b"__mydata", Some(SegmentName::data())),
        Alignment { exponent: 4 },
    );
    assert_eq!(first, NUM_BUILT_IN_SECTIONS);
    assert_eq!(first, second);
    assert_eq!(sections.custom.len(), 1);
    assert_eq!(sections.custom[0].min_alignment, Alignment { exponent: 3 });

    let other = sections.add_named_section(
        SectionIdentity::new(b"__mydata", Some(SegmentName::text())),
        Alignment { exponent: 0 },
    );
    assert_eq!(other, NUM_BUILT_IN_SECTIONS + 1);
    assert_eq!(sections.custom.len(), 2);
}

#[test]
fn selector_references_are_told_apart_by_segment() {
    let mut sections = static_sections();
    let writable = sections.add_named_section(
        SectionIdentity::new(b"__objc_selrefs", Some(SegmentName::data())),
        Alignment { exponent: 3 },
    );
    let constant = sections.add_named_section(
        SectionIdentity::new(b"__objc_selrefs", Some(SegmentName::data_const())),
        Alignment { exponent: 3 },
    );
    assert_eq!(writable, OBJC_SELECTOR_REFERENCES);
    assert_eq!(constant, OBJC_CONST_SELECTOR_REFERENCES);
    assert!(sections.custom.is_empty());
    assert!(!is_custom(GOT));
}

#[test]
fn synthetic_regions_have_no_segment() {
    let mut sections = static_sections();
    let header = sections.add_named_section(SectionIdentity::new(b"FILE_HEADER", None), Alignment { exponent: 0 });
    assert_eq!(header, 0);
    let with_segment = sections.add_named_section(
        SectionIdentity::new(b"FILE_HEADER", Some(SegmentName::text())),
        Alignment { exponent: 0 },
    );
    assert!(is_custom(with_segment));
}

#[test]
fn built_in_table_entries() {
    let eh_frame = built_in_section_details(EH_FRAME);
    assert_eq!(eh_frame.identity.name, b"__eh_frame".to_vec());
    assert_eq!(eh_frame.section_flags, 0x4800_000b);
    assert_eq!(eh_frame.min_alignment.exponent, 3);
    let text = built_in_section_details(TEXT);
    assert_eq!(text.section_flags, 0x8000_0400);
    assert_eq!(text.min_alignment.exponent, 2);
    assert!(text.identity.segment.is_some());
}
