use std::collections::BTreeMap;

use wild_macho::aarch64::{write_plt_entry, write_thunk, RelocationError};
use wild_macho::chained_fixups::{ChainedFixup, ChainedFixupKind};
use wild_macho::layout::{
    add_named_sections_in_segment, add_sections_in_segment, add_sections_in_segment_except,
    allocate_got, allocate_plt, allocate_tlvp, create_dynamic_layout_ext, local_got_rebase_for_symbol,
    write_epilogue, GotTargetDefinition, LayoutError, OutputSectionIdentity, SlotOffsets,
};
use wild_macho::segment::SegmentName;
use wild_macho::symbols::{ImportedSymbol, ImportedSymbolBinding};
use wild_macho::synthetic::{
    write_objc_message_stubs, write_objc_selector_references, write_plt_entries, write_thunks,
    ObjcMessageStubPlan, SyntheticError,
};

fn word(data: &[u8], offset: usize) -> u32 {
    u32::from_le_bytes(data[offset..offset + 4].try_into().unwrap())
}

fn stub_import(got_address: u64, plt_address: Option<u64>) -> ImportedSymbol {
    ImportedSymbol {
        install_name: b"/usr/lib/libSystem.B.dylib".to_vec(),
        binding: ImportedSymbolBinding::Got { got_address, plt_address },
        weak_import: false,
    }
}

#[test]
fn plt_entries_are_written_at_their_stub_offsets() {
    let imports = [stub_import(0x1_0000_8000, Some(0x1_0000_400c)), stub_import(0x1_0000_8008, None)];
    let mut plt = vec![0u8; 24];
    write_plt_entries(&imports, 0x1_0000_4000, &mut plt).unwrap();
    assert!(plt[..12].iter().all(|&byte| byte == 0));
    let mut expected = [0u8; 12];
    write_plt_entry(&mut expected, 0x1_0000_8000, 0x1_0000_400c).unwrap();
    assert_eq!(&plt[12..24], &expected);
    // adrp x16, #4 pages (immhi 1, immlo 0); ldr x16, [x16]; br x16
    assert_eq!(word(&plt, 12), 0x9000_0010 | (1 << 5));
    assert_eq!(word(&plt, 16), 0xf940_0210);
    assert_eq!(word(&plt, 20), 0xd61f_0200);
}

#[test]
fn plt_entries_outside_their_section_are_refused_without_writing() {
    let mut plt = vec![0xaau8; 12];
    assert_eq!(
        write_plt_entries(&[stub_import(0x8000, Some(0x3ffc))], 0x4000, &mut plt),
        Err(SyntheticError::BeforeSection)
    );
    assert_eq!(
        write_plt_entries(&[stub_import(0x8000, Some(0x4004))], 0x4000, &mut plt),
        Err(SyntheticError::OutsideSection)
    );
    assert_eq!(
        write_plt_entries(&[stub_import(0x2_0000_0000, Some(0x4000))], 0x4000, &mut plt),
        Err(SyntheticError::Instruction(RelocationError::TargetTooFar))
    );
    assert!(plt.iter().all(|&byte| byte == 0xaa));
}

#[test]
fn objc_stubs_load_the_selector_reference_and_branch_through_the_got() {
    let plans = [
        ObjcMessageStubPlan { selector_address: 0x1_0000_9000, got_address: 0x1_0000_8000 },
        ObjcMessageStubPlan { selector_address: 0x1_0000_9010, got_address: 0x1_0000_8000 },
    ];
    let mut stubs = vec![0u8; 64];
    let rebases = write_objc_message_stubs(&plans, 0x1_0000_1000, 0x1_0000_a000, &mut stubs).unwrap();
    assert_eq!(
        rebases,
        BTreeMap::from([(0x1_0000_a000, 0x1_0000_9000), (0x1_0000_a008, 0x1_0000_9010)])
    );
    // adrp x1, #9 pages; ldr x1, [x1, #0]
    assert_eq!(word(&stubs, 0), 0x9000_0001 | (1 << 29) | (2 << 5));
    assert_eq!(word(&stubs, 4), 0xf940_0021);
    // adrp x16, #7 pages; ldr x16, [x16, #0]; br x16; brk #1 x3
    assert_eq!(word(&stubs, 8), 0x9000_0010 | (3 << 29) | (1 << 5));
    assert_eq!(word(&stubs, 12), 0xf940_0210);
    assert_eq!(word(&stubs, 16), 0xd61f_0200);
    assert_eq!(word(&stubs, 20), 0xd420_0020);
    assert_eq!(word(&stubs, 28), 0xd420_0020);
    // The second stub loads the next selector reference, 8 bytes later: `ldr x1, [x1, #8]`.
    assert_eq!(word(&stubs, 36), 0xf940_0021 | (1 << 10));

    let mut references = vec![0u8; 16];
    write_objc_selector_references(&rebases, 0x1_0000_a000, &mut references).unwrap();
    assert_eq!(u64::from_le_bytes(references[0..8].try_into().unwrap()), 0x1_0000_9000);
    assert_eq!(u64::from_le_bytes(references[8..16].try_into().unwrap()), 0x1_0000_9010);
}

#[test]
fn objc_stub_allocations_must_match_the_plan() {
    let mut empty: Vec<u8> = Vec::new();
    assert!(write_objc_message_stubs(&[], 0x1000, 0x2000, &mut empty).unwrap().is_empty());
    let mut unplanned = vec![0u8; 32];
    assert_eq!(
        write_objc_message_stubs(&[], 0x1000, 0x2000, &mut unplanned),
        Err(SyntheticError::UnplannedObjcStubs)
    );
    let plan = ObjcMessageStubPlan { selector_address: 0x3000, got_address: 0x4000 };
    let mut small = vec![0u8; 16];
    assert_eq!(
        write_objc_message_stubs(&[plan], 0x1000, 0x2000, &mut small),
        Err(SyntheticError::ObjcStubsTooSmall)
    );
    let mut stubs = vec![0u8; 32];
    assert_eq!(
        write_objc_message_stubs(&[plan], 0x5000, 0x2000, &mut stubs),
        Err(SyntheticError::Instruction(RelocationError::TargetBeforePage))
    );
    let mut references = vec![0u8; 8];
    assert_eq!(
        write_objc_selector_references(&BTreeMap::from([(0x2004, 0x3000)]), 0x2000, &mut references),
        Err(SyntheticError::OutsideSection)
    );
}

#[test]
fn thunks_are_written_back_to_back_in_symbol_order() {
    let thunk_addresses = BTreeMap::from([(7u32, 0x1_0800_0000), (2u32, 0x1_0800_000c)]);
    let targets = BTreeMap::from([(2u32, 0x1_0000_1000), (7u32, 0x1_0000_2000)]);
    let mut buffer = vec![0u8; 24];
    write_thunks(&thunk_addresses, &targets, &mut buffer).unwrap();
    let mut first = [0u8; 12];
    write_thunk(0x1_0800_000c, 0x1_0000_1000, &mut first);
    let mut second = [0u8; 12];
    write_thunk(0x1_0800_0000, 0x1_0000_2000, &mut second);
    assert_eq!(&buffer[..12], &first);
    assert_eq!(&buffer[12..], &second);

    let mut small = vec![0u8; 12];
    assert_eq!(write_thunks(&thunk_addresses, &targets, &mut small), Err(SyntheticError::OutsideSection));
    assert_eq!(
        write_thunks(&thunk_addresses, &BTreeMap::new(), &mut buffer),
        Err(SyntheticError::MissingThunkTarget)
    );
}

#[test]
fn slot_allocation_hands_out_consecutive_slots() {
    let mut offsets = SlotOffsets { got: 0x8000, tlvp: 0x9000, plt_got: 0x4000 };
    assert_eq!(allocate_got(&mut offsets), 0x8000);
    assert_eq!(allocate_got(&mut offsets), 0x8008);
    assert_eq!(allocate_tlvp(&mut offsets), 0x9000);
    assert_eq!(allocate_plt(&mut offsets), 0x4000);
    assert_eq!(allocate_plt(&mut offsets), 0x400c);
    assert_eq!(offsets, SlotOffsets { got: 0x8010, tlvp: 0x9008, plt_got: 0x4018 });
}

fn section(id: u32, segment: Option<SegmentName>, name: &[u8]) -> OutputSectionIdentity {
    OutputSectionIdentity { id, segment, name: name.to_vec() }
}

#[test]
fn sections_are_ordered_into_their_segments() {
    let sections = [
        section(1, Some(SegmentName::text()), b"__text"),
        section(2, Some(SegmentName::data()), b"__data"),
        section(3, Some(SegmentName::text()), b"__stubs"),
        section(4, None, b"__text"),
    ];
    let mut order = vec![9];
    add_sections_in_segment(&mut order, &sections, SegmentName::text());
    assert_eq!(order, vec![9, 1, 3]);
    let mut named = Vec::new();
    add_named_sections_in_segment(&mut named, &sections, SegmentName::text(), b"__stubs");
    assert_eq!(named, vec![3]);
    let mut except = Vec::new();
    add_sections_in_segment_except(&mut except, &sections, SegmentName::text(), b"__stubs");
    assert_eq!(except, vec![1]);
}

#[test]
fn library_ordinals_follow_load_order() {
    let libraries = vec![b"/usr/lib/libA.dylib".to_vec(), b"/usr/lib/libB.dylib".to_vec(), b"/usr/lib/libB.dylib".to_vec()];
    assert_eq!(create_dynamic_layout_ext(b"/usr/lib/libB.dylib", &libraries), Ok(Some(2)));
    assert_eq!(create_dynamic_layout_ext(b"/usr/lib/libC.dylib", &libraries), Ok(None));
    let many: Vec<Vec<u8>> = (0..300).map(|i| format!("lib{i}").into_bytes()).collect();
    assert_eq!(create_dynamic_layout_ext(b"lib254", &many), Ok(Some(255)));
    assert_eq!(create_dynamic_layout_ext(b"lib255", &many), Err(LayoutError::TooManyLibraries));
}

#[test]
fn local_got_slots_rebase_to_their_definition() {
    assert_eq!(local_got_rebase_for_symbol(&GotTargetDefinition::Dynamic), Ok(None));
    assert_eq!(
        local_got_rebase_for_symbol(&GotTargetDefinition::Section {
            section_address: Some(0x1_0000_1000),
            output_offset: Some(0x20),
            got_address: Some(0x1_0000_8000),
        }),
        Ok(Some(ChainedFixup {
            address: 0x1_0000_8000,
            kind: ChainedFixupKind::Rebase { target: 0x1_0000_1020 }
        }))
    );
    assert_eq!(
        local_got_rebase_for_symbol(&GotTargetDefinition::Section {
            section_address: Some(0x1000),
            output_offset: None,
            got_address: Some(0x8000),
        }),
        Err(LayoutError::DeadGotTarget)
    );
    assert_eq!(
        local_got_rebase_for_symbol(&GotTargetDefinition::Common { symbol_address: Some(0x10), got_address: None }),
        Err(LayoutError::MissingGotSlot)
    );
}

#[test]
fn epilogue_copies_the_exports_trie_and_clears_unwind_info() {
    let mut exports = vec![0xaau8; 8];
    let mut unwind = vec![0xbbu8; 4];
    write_epilogue(&[1, 2, 3], &mut exports, &mut unwind).unwrap();
    assert_eq!(exports, vec![1, 2, 3, 0, 0, 0, 0, 0]);
    assert_eq!(unwind, vec![0, 0, 0, 0]);
    let mut small = vec![0u8; 2];
    assert_eq!(write_epilogue(&[1, 2, 3], &mut small, &mut unwind), Err(LayoutError::ExportsTrieTooLarge));
}
