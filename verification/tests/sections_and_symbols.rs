use wild_macho::sections::{
    indirect_symbol_index, indirect_symbol_section_type_name, is_no_bits_section_type,
    is_non_alloc_section, is_tls_section_type, minimum_section_alignment,
    section_is_strings, section_should_retain, symbol_section_properties_from_section,
    validate_indirect_symbol_sections, IndirectSymbolError, IndirectSymbolSectionHeader,
    IndirectSymbolSectionKind, SectionAttributes, SymbolSectionProperties, S_ATTR_DEBUG,
    S_ATTR_NO_DEAD_STRIP, S_ATTR_PURE_INSTRUCTIONS, S_LAZY_DYLIB_SYMBOL_POINTERS,
    S_LAZY_SYMBOL_POINTERS, S_MOD_INIT_FUNC_POINTERS, S_NON_LAZY_SYMBOL_POINTERS, S_REGULAR,
    S_SYMBOL_STUBS, S_THREAD_LOCAL_REGULAR, S_THREAD_LOCAL_VARIABLES,
    S_THREAD_LOCAL_VARIABLE_POINTERS, S_THREAD_LOCAL_ZEROFILL, S_ZEROFILL,
};
use wild_macho::segment::SegmentName;
use wild_macho::symtab::{
    RawSymtabEntry, SymbolBinding, SymbolKind, SymtabEntry, Visibility, N_EXT, N_PEXT, N_SECT,
    N_UNDF, N_WEAK_DEF,
};

#[test]
fn classifies_non_loadable_macho_sections_from_format_metadata() {
    assert!(!is_non_alloc_section(S_REGULAR, b"__TEXT"));
    assert!(is_non_alloc_section(S_REGULAR | S_ATTR_DEBUG, b"__TEXT"));
    assert!(!is_non_alloc_section(S_REGULAR | S_ATTR_DEBUG, b"__LD"));
    assert!(is_non_alloc_section(S_REGULAR, b"__DWARF"));
    assert!(is_non_alloc_section(S_REGULAR, b"__LINKEDIT"));
}

#[test]
fn classifies_tlv_storage_without_treating_descriptors_as_tls_data() {
    assert!(is_tls_section_type(S_THREAD_LOCAL_REGULAR));
    assert!(is_tls_section_type(S_THREAD_LOCAL_ZEROFILL));
    assert!(!is_tls_section_type(S_THREAD_LOCAL_VARIABLES));
    assert!(!is_tls_section_type(S_THREAD_LOCAL_VARIABLE_POINTERS));
    assert!(!is_tls_section_type(S_REGULAR));
}

#[test]
fn section_attributes_keep_macho_tls_section_types() {
    let tls = SectionAttributes::new(S_THREAD_LOCAL_REGULAR, Some(SegmentName::data()));
    assert!(tls.is_tls());
    let descriptor = SectionAttributes::new(S_THREAD_LOCAL_VARIABLES, Some(SegmentName::data()));
    assert!(!descriptor.is_tls());
}

#[test]
fn thread_variable_descriptors_are_at_least_word_aligned() {
    assert_eq!(minimum_section_alignment(S_THREAD_LOCAL_VARIABLES, 1), 8);
    assert_eq!(minimum_section_alignment(S_THREAD_LOCAL_VARIABLES, 16), 16);
    assert_eq!(minimum_section_alignment(S_REGULAR, 1), 1);
}

#[test]
fn section_attributes_merge_and_apply() {
    let code = SectionAttributes::new(S_REGULAR | S_ATTR_PURE_INSTRUCTIONS | 0x400, Some(SegmentName::text()));
    assert!(code.is_executable());
    assert!(!code.writable);
    let mut merged = SectionAttributes::new(S_ZEROFILL, Some(SegmentName::data()));
    assert!(merged.writable);
    assert!(merged.is_no_bits());
    merged.merge(code);
    assert_eq!(merged.ty, S_ZEROFILL);
    assert_eq!(merged.flags(), S_ATTR_PURE_INSTRUCTIONS | 0x400 | S_ZEROFILL);
    assert!(merged.writable);

    // The external/local-relocation attributes stay with the input.
    let input = SectionAttributes { ty: S_THREAD_LOCAL_REGULAR, attr: 0x300 | S_ATTR_DEBUG, writable: false };
    let mut output = SectionAttributes::default();
    input.apply(&mut output);
    assert_eq!(output, SectionAttributes { ty: S_THREAD_LOCAL_REGULAR, attr: S_ATTR_DEBUG, writable: false });
    assert!(!SectionAttributes::new(S_REGULAR, None).writable);
}

#[test]
fn section_roles_from_flags() {
    assert!(is_no_bits_section_type(S_THREAD_LOCAL_ZEROFILL));
    assert!(!is_no_bits_section_type(S_REGULAR));
    assert!(section_should_retain(S_REGULAR | S_ATTR_NO_DEAD_STRIP));
    assert!(section_should_retain(S_MOD_INIT_FUNC_POINTERS));
    assert!(!section_should_retain(S_REGULAR));
    assert!(section_is_strings(0x2));
    assert!(!section_is_strings(S_REGULAR));
    assert_eq!(
        symbol_section_properties_from_section(S_THREAD_LOCAL_REGULAR),
        SymbolSectionProperties { is_tls: true, is_func: false }
    );
    assert_eq!(
        symbol_section_properties_from_section(S_REGULAR | S_ATTR_PURE_INSTRUCTIONS),
        SymbolSectionProperties { is_tls: false, is_func: true }
    );
}

fn indirect_section(section_type: u32) -> IndirectSymbolSectionHeader {
    let (size, reserved2) = if section_type == S_SYMBOL_STUBS { (12, 12) } else { (8, 0) };
    IndirectSymbolSectionHeader { flags: section_type, size, reserved1: 0, reserved2 }
}

#[test]
fn indirect_symbol_sections_are_rejected_before_layout() {
    for (section_type, kind) in [
        (S_NON_LAZY_SYMBOL_POINTERS, IndirectSymbolSectionKind::NonLazySymbolPointers),
        (S_LAZY_SYMBOL_POINTERS, IndirectSymbolSectionKind::LazySymbolPointers),
        (S_SYMBOL_STUBS, IndirectSymbolSectionKind::SymbolStubs),
        (S_LAZY_DYLIB_SYMBOL_POINTERS, IndirectSymbolSectionKind::LazyDylibSymbolPointers),
        (
            S_THREAD_LOCAL_VARIABLE_POINTERS,
            IndirectSymbolSectionKind::ThreadLocalVariablePointers,
        ),
    ] {
        assert!(!is_non_alloc_section(section_type, b"__DATA"));
        assert_eq!(indirect_symbol_section_type_name(section_type), Some(kind));
        let result =
            validate_indirect_symbol_sections(&[indirect_section(section_type)], 1, Some(&[0]));
        assert_eq!(result, Err(IndirectSymbolError::Unsupported { section: 0, kind }));
    }
    assert_eq!(indirect_symbol_section_type_name(S_REGULAR), None);
    let regular = IndirectSymbolSectionHeader { flags: S_REGULAR, size: 8, reserved1: 0, reserved2: 0 };
    assert_eq!(validate_indirect_symbol_sections(&[regular], 0, None), Ok(()));
}

#[test]
fn malformed_indirect_symbol_section_reports_its_missing_table_entry() {
    let section = indirect_section(S_NON_LAZY_SYMBOL_POINTERS);
    assert_eq!(
        validate_indirect_symbol_sections(&[section], 1, Some(&[])),
        Err(IndirectSymbolError::TableTooShort {
            section: 0,
            kind: IndirectSymbolSectionKind::NonLazySymbolPointers,
            first: 0,
            end: 1,
            available: 0,
        })
    );
}

#[test]
fn malformed_indirect_symbol_section_reports_its_out_of_range_symbol() {
    let section = indirect_section(S_NON_LAZY_SYMBOL_POINTERS);
    assert_eq!(
        validate_indirect_symbol_sections(&[section], 1, Some(&[1])),
        Err(IndirectSymbolError::SymbolOutOfRange {
            section: 0,
            kind: IndirectSymbolSectionKind::NonLazySymbolPointers,
            entry: 0,
            symbol: 1,
            symbol_count: 1,
        })
    );
}

#[test]
fn indirect_symbol_section_structure_errors() {
    let kind = IndirectSymbolSectionKind::SymbolStubs;
    let zero_stubs = IndirectSymbolSectionHeader { flags: S_SYMBOL_STUBS, size: 12, reserved1: 0, reserved2: 0 };
    assert_eq!(
        validate_indirect_symbol_sections(&[zero_stubs], 1, Some(&[0])),
        Err(IndirectSymbolError::ZeroEntrySize { section: 0, kind })
    );
    let ragged = IndirectSymbolSectionHeader { flags: S_SYMBOL_STUBS, size: 13, reserved1: 0, reserved2: 12 };
    assert_eq!(
        validate_indirect_symbol_sections(&[ragged], 1, Some(&[0])),
        Err(IndirectSymbolError::SizeNotMultiple { section: 0, kind, size: 13, entry_size: 12 })
    );
    let regular = IndirectSymbolSectionHeader { flags: S_REGULAR, size: 8, reserved1: 0, reserved2: 0 };
    let pointers = indirect_section(S_NON_LAZY_SYMBOL_POINTERS);
    assert_eq!(
        validate_indirect_symbol_sections(&[regular, pointers], 1, None),
        Err(IndirectSymbolError::MissingTable {
            section: 1,
            kind: IndirectSymbolSectionKind::NonLazySymbolPointers,
        })
    );
    // Local and absolute entries name no symbol, so they are never out of range.
    assert_eq!(indirect_symbol_index(0x8000_0000), None);
    assert_eq!(indirect_symbol_index(0x4000_0000), None);
    assert_eq!(indirect_symbol_index(3), Some(3));
    assert_eq!(
        validate_indirect_symbol_sections(&[pointers], 0, Some(&[0x8000_0000])),
        Err(IndirectSymbolError::Unsupported {
            section: 0,
            kind: IndirectSymbolSectionKind::NonLazySymbolPointers,
        })
    );
}

fn raw_entry(n_type: u8, n_sect: u8, n_desc: u16, n_value: u64) -> RawSymtabEntry {
    RawSymtabEntry { n_strx: 1, n_type, n_sect, n_desc, n_value }
}

fn test_symbol(section_properties: SymbolSectionProperties) -> SymtabEntry {
    SymtabEntry::from_raw(raw_entry(N_SECT | N_EXT, 1, 0, 0), section_properties)
}

#[test]
fn symbol_properties_follow_the_defining_section() {
    let function = test_symbol(SymbolSectionProperties { is_tls: false, is_func: true });
    assert!(function.is_func());
    assert!(!function.is_tls());
    assert_eq!(function.debug_description(), (SymbolBinding::Global, SymbolKind::Func));

    let tls = test_symbol(SymbolSectionProperties { is_tls: true, is_func: false });
    assert!(tls.is_tls());
    assert!(!tls.is_func());
    assert_eq!(tls.debug_description(), (SymbolBinding::Global, SymbolKind::Tls));

    let undefined =
        SymtabEntry::from_raw(raw_entry(N_UNDF | N_EXT, 0, 0, 0), SymbolSectionProperties::default());
    assert_eq!(undefined.debug_description(), (SymbolBinding::Global, SymbolKind::Undefined));
    assert!(undefined.is_undefined());
}

#[test]
fn tentative_definitions_round_their_size_to_their_alignment() {
    let props = SymbolSectionProperties::default();
    // Natural alignment: 24 bytes ask for 32-byte alignment and take 32 bytes.
    let natural = SymtabEntry::from_raw(raw_entry(N_UNDF | N_EXT, 0, 0, 24), props);
    let common = natural.as_common().unwrap();
    assert_eq!((common.size, common.alignment_exponent), (32, 5));
    assert!(!natural.is_undefined());
    assert_eq!(natural.debug_description().1, SymbolKind::Common);
    // An explicit exponent of 3 in n_desc: 8-byte alignment.
    let explicit = SymtabEntry::from_raw(raw_entry(N_UNDF | N_EXT, 0, 3 << 8, 20), props);
    let common = explicit.as_common().unwrap();
    assert_eq!((common.size, common.alignment_exponent), (24, 3));
    // Capped at a 16 KiB page.
    let large = SymtabEntry::from_raw(raw_entry(N_UNDF | N_EXT, 0, 0, 0x10_0001), props);
    let common = large.as_common().unwrap();
    assert_eq!((common.size, common.alignment_exponent), (0x10_4000, 14));
    // One byte needs no alignment.
    let byte = SymtabEntry::from_raw(raw_entry(N_UNDF | N_EXT, 0, 0, 1), props);
    assert_eq!(byte.as_common().map(|c| (c.size, c.alignment_exponent)), Some((1, 0)));
    // Rounding past the top of the address space makes no definition.
    let huge = SymtabEntry::from_raw(raw_entry(N_UNDF | N_EXT, 0, 0, u64::MAX), props);
    assert_eq!(huge.as_common(), None);
    // A local or zero-sized undefined symbol is no tentative definition.
    assert_eq!(SymtabEntry::from_raw(raw_entry(N_UNDF, 0, 0, 8), props).as_common(), None);
    assert_eq!(SymtabEntry::from_raw(raw_entry(N_UNDF | N_EXT, 0, 0, 0), props).as_common(), None);
}

#[test]
fn hiding_a_symbol_sets_only_its_visibility() {
    let weak = SymtabEntry::from_raw(raw_entry(N_SECT | N_EXT, 1, N_WEAK_DEF, 0x40), SymbolSectionProperties::default());
    assert_eq!(weak.visibility(), Visibility::Default);
    assert!(weak.is_interposable());
    assert_eq!(weak.debug_description(), (SymbolBinding::Weak, SymbolKind::Data));
    let hidden = weak.with_hidden(true);
    assert_eq!(hidden.visibility(), Visibility::Hidden);
    assert!(hidden.is_hidden());
    assert_eq!(hidden.raw.n_type, N_SECT | N_EXT | N_PEXT);
    assert_eq!(hidden.with_hidden(false), weak);
    let local = SymtabEntry::from_raw(raw_entry(N_SECT, 1, 0, 0), SymbolSectionProperties::default());
    assert!(local.is_default_strippable(b"ltmp0"));
    assert!(local.has_name());
    assert!(!SymtabEntry::from_raw(RawSymtabEntry { n_strx: 0, ..local.raw }, SymbolSectionProperties::default()).has_name());
    assert!(!local.is_default_strippable(b"_main"));
    assert!(!weak.is_default_strippable(b"ltmp0"));
    assert_eq!(local.debug_description().0, SymbolBinding::Local);
}
