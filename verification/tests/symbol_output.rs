use wild_macho::sections::SymbolSectionProperties;
use wild_macho::symbol_output::{
    output_nlist_fields, IndirectTarget, NlistFields, SectionFact, SymbolResolution,
    SymbolWriteError, TargetPlacement,
};
use wild_macho::symtab::{RawSymtabEntry, SymtabEntry};

fn entry(n_type: u8, n_sect: u8, n_desc: u16, n_value: u64) -> SymtabEntry {
    SymtabEntry::from_raw(
        RawSymtabEntry { n_strx: 1, n_type, n_sect, n_desc, n_value },
        SymbolSectionProperties { is_tls: false, is_func: false },
    )
}

#[test]
fn section_symbol_keeps_description_in_its_output_section() {
    let sym = entry(0x0f, 1, 0x80, 0x10);
    let section = SectionFact::Loaded { output_index: Some(3), copied: true, address: Some(0x1000), output_offset: Some(0x20) };
    let resolved = output_nlist_fields(&sym, Some(section), Some(9), None, Some(SymbolResolution { table_value: 0x4000, symbol_address: 0x5000 }));
    assert_eq!(resolved, Ok(NlistFields { n_sect: 3, n_type: 0x0f, n_desc: 0x80, n_value: 0x4000 }));
    let unresolved = output_nlist_fields(&sym, Some(section), Some(9), None, None);
    assert_eq!(unresolved, Ok(NlistFields { n_sect: 3, n_type: 0x0f, n_desc: 0x80, n_value: 0x1020 }));
}

#[test]
fn indirect_alias_takes_its_target_address() {
    let alias = entry(0x0b, 0, 0x10, 0x55);
    let target = IndirectTarget { placement: TargetPlacement::Section(Some(2)), address: Some(0x1_0000_4000) };
    assert_eq!(
        output_nlist_fields(&alias, None, Some(9), Some(target), None),
        Ok(NlistFields { n_sect: 2, n_type: 0x0f, n_desc: 0x10, n_value: 0x1_0000_4000 })
    );
    let common_target = IndirectTarget { placement: TargetPlacement::Common, address: Some(0x8000) };
    assert_eq!(
        output_nlist_fields(&alias, None, Some(9), Some(common_target), None),
        Ok(NlistFields { n_sect: 9, n_type: 0x0f, n_desc: 0x10, n_value: 0x8000 })
    );
    assert_eq!(output_nlist_fields(&alias, None, Some(9), None, None), Err(SymbolWriteError::MissingIndirectTarget));
    let unresolved = IndirectTarget { placement: TargetPlacement::Section(Some(2)), address: None };
    assert_eq!(output_nlist_fields(&alias, None, Some(9), Some(unresolved), None), Err(SymbolWriteError::IndirectTargetUnresolved));
}

#[test]
fn common_becomes_a_common_section_definition() {
    let common = entry(0x01, 0, 0x0300, 16);
    let res = SymbolResolution { table_value: 1, symbol_address: 0x2000 };
    assert_eq!(
        output_nlist_fields(&common, None, Some(7), None, Some(res)),
        Ok(NlistFields { n_sect: 7, n_type: 0x0f, n_desc: 0, n_value: 0x2000 })
    );
    assert_eq!(output_nlist_fields(&common, None, None, None, Some(res)), Err(SymbolWriteError::NoCommonSectionIndex));
}

#[test]
fn absolute_and_unexpected_symbols() {
    let absolute = entry(0x03, 0, 0, 0x1234);
    assert_eq!(
        output_nlist_fields(&absolute, None, None, None, Some(SymbolResolution { table_value: 0x1234, symbol_address: 0x1234 })),
        Ok(NlistFields { n_sect: 0, n_type: 0x03, n_desc: 0, n_value: 0x1234 })
    );
    let undefined = entry(0x01, 0, 0, 0);
    assert_eq!(output_nlist_fields(&undefined, None, Some(7), None, None), Err(SymbolWriteError::UnexpectedSymbolType));
    let sym = entry(0x0e, 1, 0, 0);
    assert_eq!(output_nlist_fields(&sym, Some(SectionFact::NotLoaded), None, None, None), Err(SymbolWriteError::SectionNotLoaded));
    let overflow = SectionFact::Loaded { output_index: Some(1), copied: true, address: Some(u64::MAX), output_offset: Some(1) };
    assert_eq!(output_nlist_fields(&sym, Some(overflow), None, None, None), Err(SymbolWriteError::AddressOverflow));
}
