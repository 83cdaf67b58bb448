use std::collections::BTreeMap;

use wild_macho::chained_fixups::{
    chained_bind_word, chained_rebase_word, insert_local_got_rebase, plan_segment_chained_fixups,
    write_chained_fixup_pointers, ChainedFixup, ChainedFixupError, ChainedFixupKind,
    ChainedFixups, CHAINED_FIXUP_PAGE_SIZE,
};
use wild_macho::compact_unwind::{
    compact_unwind_image_offset, compact_unwind_info_capacity, rewrite_arm64_dwarf_fde_offsets,
    serialize_compact_unwind_info, CompactUnwindEntry, CompactUnwindError, EhFrameFdeIdentity,
    ARM64_UNWIND_MODE_DWARF,
};
use wild_macho::image::{image_base, ImageError, OutputSegment};
use wild_macho::layout::GOT_ENTRY_SIZE;
use wild_macho::load_commands::{
    load_dylib_command_size, parse_dylib_version, rpath_command_size, version_new,
    write_dylib_command, write_dylinker_command, write_rpath_command, write_uuid_command,
    DylibVersions, VersionError, DYLIB_COMMAND_SIZE, DYLINKER_COMMAND_SIZE, LC_ID_DYLIB,
    LC_LOAD_DYLIB, LC_RPATH, LC_UUID, RPATH_COMMAND_SIZE, UUID_COMMAND_SIZE,
};
use wild_macho::segment::SegmentName;
use wild_macho::symbols::{export_symbol_address, Resolution};

const MACHO_START_MEM_ADDRESS: u64 = 0x1_0000_0000;

fn word(data: &[u8], offset: usize) -> u32 {
    u32::from_le_bytes(data[offset..offset + 4].try_into().unwrap())
}

#[test]
fn local_got_exports_definition_address_without_changing_dynamic_or_plt_targets() {
    let local_got = Resolution {
        raw_value: 0x9000,
        dynamic_symbol_index: None,
        symbol_address: 0x3000,
        got_address: Some(0x9000),
        tlvp_address: None,
        plt_address: None,
    };
    assert_eq!(export_symbol_address(&local_got), 0x3000);

    let dynamic = Resolution { dynamic_symbol_index: Some(1), ..local_got };
    assert_eq!(export_symbol_address(&dynamic), 0x9000);

    let local_plt = Resolution { dynamic_symbol_index: None, plt_address: Some(0x8000), ..local_got };
    assert_eq!(export_symbol_address(&local_plt), 0x9000);
}

#[test]
fn dylib_install_name_uses_an_id_load_command() {
    let path = b"@rpath/libexample.dylib";
    let mut command = [0u8; DYLIB_COMMAND_SIZE];
    let mut path_buffer = vec![0xff; load_dylib_command_size(path) - DYLIB_COMMAND_SIZE];

    write_dylib_command(
        &mut command,
        &mut path_buffer,
        path,
        LC_ID_DYLIB,
        1,
        DylibVersions::output_default(),
    );

    assert_eq!(word(&command, 0), LC_ID_DYLIB);
    assert_eq!(word(&command, 4) as usize, load_dylib_command_size(path));
    assert_eq!(word(&command, 8) as usize, DYLIB_COMMAND_SIZE);
    assert_eq!(word(&command, 12), 1);
    assert_eq!(word(&command, 16), version_new(1, 0, 0));
    assert_eq!(word(&command, 20), version_new(1, 0, 0));
    assert_eq!(&path_buffer[..path.len()], path);
    assert!(path_buffer[path.len()..].iter().all(|&byte| byte == 0));
}

#[test]
fn dependency_load_command_preserves_input_versions() {
    let path = b"@rpath/libcontract.dylib";
    let mut command = [0u8; DYLIB_COMMAND_SIZE];
    let mut path_buffer = vec![0xff; load_dylib_command_size(path) - DYLIB_COMMAND_SIZE];
    let versions = DylibVersions { current: version_new(7, 8, 9), compatibility: version_new(3, 2, 1) };

    write_dylib_command(&mut command, &mut path_buffer, path, LC_LOAD_DYLIB, 2, versions);

    assert_eq!(word(&command, 0), LC_LOAD_DYLIB);
    assert_eq!(word(&command, 12), 2);
    assert_eq!(word(&command, 16), versions.current);
    assert_eq!(word(&command, 20), versions.compatibility);
}

#[test]
fn rpath_load_command_includes_a_nul_terminated_path() {
    let path = b"@loader_path/Frameworks";
    let mut command = [0u8; RPATH_COMMAND_SIZE];
    let mut path_buffer = vec![0xff; rpath_command_size(path) - RPATH_COMMAND_SIZE];

    write_rpath_command(&mut command, &mut path_buffer, path);

    assert_eq!(word(&command, 0), LC_RPATH);
    assert_eq!(word(&command, 4) as usize, rpath_command_size(path));
    assert_eq!(word(&command, 8) as usize, RPATH_COMMAND_SIZE);
    assert_eq!(&path_buffer[..path.len()], path);
    assert!(path_buffer[path.len()..].iter().all(|&byte| byte == 0));
}

#[test]
fn load_command_sizes_include_the_nul_and_eight_byte_padding() {
    assert_eq!(load_dylib_command_size(b"@rpath/libexample.dylib"), 48);
    assert_eq!(rpath_command_size(b"@loader_path/Frameworks"), 40);
    assert_eq!(load_dylib_command_size(b"1234567"), 32);
}

#[test]
fn dylinker_and_uuid_commands_have_their_fixed_layout() {
    let mut command = [0xffu8; DYLINKER_COMMAND_SIZE];
    let mut path = [0xffu8; 20];
    write_dylinker_command(&mut command, &mut path);
    assert_eq!(word(&command, 8) as usize, DYLINKER_COMMAND_SIZE);
    assert_eq!(&path[..13], b"/usr/lib/dyld");
    assert!(path[13..].iter().all(|&byte| byte == 0));

    let mut uuid = [0xffu8; UUID_COMMAND_SIZE];
    write_uuid_command(&mut uuid);
    assert_eq!(word(&uuid, 0), LC_UUID);
    assert_eq!(word(&uuid, 4) as usize, UUID_COMMAND_SIZE);
    assert!(uuid[8..].iter().all(|&byte| byte == 0));
}

#[test]
fn tbd_versions_parse_and_default() {
    assert_eq!(parse_dylib_version(b"1.2.3"), Ok(version_new(1, 2, 3)));
    assert_eq!(parse_dylib_version(b"10"), Ok(version_new(10, 0, 0)));
    assert_eq!(parse_dylib_version(b"1.256"), Err(VersionError::InvalidMinor));
    assert_eq!(
        DylibVersions::tbd(b"1.2.3", b"1.1"),
        Ok(DylibVersions { current: version_new(1, 2, 3), compatibility: version_new(1, 1, 0) })
    );
    assert_eq!(DylibVersions::tbd(b"", b""), Ok(DylibVersions::output_default()));
}

#[test]
fn tlv_descriptor_storage_offsets() {
    assert_eq!(wild_macho::aarch64::tls_storage_offset(0x10, 0x10), Ok(0));
}

#[test]
fn chained_fixups_start_a_new_chain_on_each_segment_page() {
    let page = CHAINED_FIXUP_PAGE_SIZE;
    let plan = plan_segment_chained_fixups(
        3,
        0x1_0000,
        page * 2,
        vec![
            ChainedFixup {
                address: 0x1_0000 + page - GOT_ENTRY_SIZE,
                kind: ChainedFixupKind::Bind { import_index: 0, addend: 0 },
            },
            ChainedFixup {
                address: 0x1_0000 + page + GOT_ENTRY_SIZE,
                kind: ChainedFixupKind::Rebase { target: 0x1_0000 + 0x40 },
            },
        ],
    )
    .unwrap();

    assert_eq!(plan.segment_index, 3);
    assert_eq!(plan.page_starts, vec![(page - GOT_ENTRY_SIZE) as u16, GOT_ENTRY_SIZE as u16]);
    assert_eq!(plan.next_by_fixup, vec![0, 0]);
}

#[test]
fn chained_fixups_on_one_page_link_to_each_other() {
    let plan = plan_segment_chained_fixups(
        1,
        0x4000,
        0x4000,
        vec![
            ChainedFixup { address: 0x4010, kind: ChainedFixupKind::Rebase { target: 0x4000 } },
            ChainedFixup { address: 0x4000, kind: ChainedFixupKind::Rebase { target: 0x4000 } },
        ],
    )
    .unwrap();
    assert_eq!(plan.page_starts, vec![0]);
    assert_eq!(plan.next_by_fixup, vec![4, 0]);
    assert_eq!(plan.fixups[0].address, 0x4000);
}

#[test]
fn chained_fixups_reject_misplaced_pointers() {
    let fixup = |address| ChainedFixup { address, kind: ChainedFixupKind::Rebase { target: 0 } };
    assert_eq!(
        plan_segment_chained_fixups(0, 0x4000, 0x100, vec![fixup(0x4004)]),
        Err(ChainedFixupError::Misaligned)
    );
    assert_eq!(
        plan_segment_chained_fixups(0, 0x4000, 0x100, vec![fixup(0x4100)]),
        Err(ChainedFixupError::OutsideSegment)
    );
    assert_eq!(
        plan_segment_chained_fixups(0, 0x4000, 0x100, vec![fixup(0x4008), fixup(0x4008)]),
        Err(ChainedFixupError::DuplicateAddress)
    );
}

#[test]
fn chained_rebase_is_image_relative_and_keeps_the_next_delta() {
    let encoded = chained_rebase_word(0x1_0000_03c0, 0x1_0000_0000, 2).unwrap();

    assert_eq!(encoded & ((1 << 36) - 1), 0x3c0);
    assert_eq!((encoded >> 51) & 0x0fff, 2);
    assert_eq!(encoded >> 63, 0);
}

#[test]
fn chained_dynamic_data_bind_preserves_ordinal_and_addend() {
    let encoded = chained_bind_word(0x7b, 0x10, 2).unwrap();

    assert_eq!(encoded & 0x00ff_ffff, 0x7b);
    assert_eq!((encoded >> 24) & 0xff, 0x10);
    assert_eq!((encoded >> 51) & 0x0fff, 2);
    assert_eq!(encoded >> 63, 1);
}

#[test]
fn chained_words_reject_fields_that_do_not_fit() {
    assert_eq!(chained_bind_word(0x100_0000, 0, 0), Err(ChainedFixupError::OrdinalTooLarge));
    assert_eq!(chained_bind_word(1, 0, 0x1000), Err(ChainedFixupError::NextTooLarge));
    assert_eq!(chained_rebase_word(0x0fff, 0x1000, 0), Err(ChainedFixupError::TargetBeforeImageBase));
    assert_eq!(
        chained_rebase_word(0x1000 + 0x10_0000_0000, 0x1000, 0),
        Err(ChainedFixupError::TargetTooFar)
    );
}

#[test]
fn eh_frame_personality_got_rebases_deduplicate_and_reject_conflicts() {
    let got = MACHO_START_MEM_ADDRESS + 0x6000;
    let target = MACHO_START_MEM_ADDRESS + 0x1200;
    let mut rebases = BTreeMap::new();
    let rebase = ChainedFixup { address: got, kind: ChainedFixupKind::Rebase { target } };

    insert_local_got_rebase(&mut rebases, rebase).unwrap();
    insert_local_got_rebase(&mut rebases, rebase).unwrap();
    assert_eq!(rebases, BTreeMap::from([(got, target)]));

    let error = insert_local_got_rebase(
        &mut rebases,
        ChainedFixup { address: got, kind: ChainedFixupKind::Rebase { target: target + 4 } },
    )
    .unwrap_err();
    assert_eq!(error, ChainedFixupError::ConflictingRebase);
    assert_eq!(rebases, BTreeMap::from([(got, target)]));
}

#[test]
fn local_got_fixups_must_be_rebases() {
    let mut rebases = BTreeMap::new();
    let bind = ChainedFixup { address: 0x10, kind: ChainedFixupKind::Bind { import_index: 0, addend: 0 } };
    assert_eq!(insert_local_got_rebase(&mut rebases, bind), Err(ChainedFixupError::NotARebase));
    assert!(rebases.is_empty());
}

fn segment(name: &[u8], mem_offset: u64, mem_size: u64, file_offset: usize, file_size: usize) -> OutputSegment {
    OutputSegment { name: SegmentName::from_bytes(name), mem_offset, mem_size, file_offset, file_size }
}

#[test]
fn chained_pointers_are_written_at_their_file_offsets() {
    let segments = [
        segment(b"__TEXT", 0x1_0000_0000, 0x4000, 0, 0x4000),
        segment(b"__DATA", 0x1_0000_4000, 0x4000, 0x4000, 0x100),
    ];
    assert_eq!(image_base(&segments), Ok(0x1_0000_0000));
    let plan = plan_segment_chained_fixups(
        1,
        0x1_0000_4000,
        0x4000,
        vec![
            ChainedFixup { address: 0x1_0000_4008, kind: ChainedFixupKind::Rebase { target: 0x1_0000_0100 } },
            ChainedFixup { address: 0x1_0000_4010, kind: ChainedFixupKind::Bind { import_index: 5, addend: 0 } },
        ],
    )
    .unwrap();
    let mut output = vec![0u8; 0x4100];
    write_chained_fixup_pointers(&segments, &ChainedFixups { segments: vec![plan] }, &mut output).unwrap();
    let rebase = u64::from_le_bytes(output[0x4008..0x4010].try_into().unwrap());
    assert_eq!(rebase, chained_rebase_word(0x1_0000_0100, 0x1_0000_0000, 2).unwrap());
    let bind = u64::from_le_bytes(output[0x4010..0x4018].try_into().unwrap());
    assert_eq!(bind, chained_bind_word(5, 0, 0).unwrap());
}

#[test]
fn image_base_needs_a_text_segment() {
    let segments = [segment(b"__DATA", 0x4000, 0x4000, 0, 0x100)];
    assert_eq!(image_base(&segments), Err(ImageError::MissingTextSegment));
}

#[test]
fn compact_unwind_regular_page_preserves_personality_and_lsda() {
    let entries = [
        CompactUnwindEntry {
            function_address: MACHO_START_MEM_ADDRESS + 0x100,
            function_length: 0x20,
            encoding: 0x4400_0000,
            eh_frame_fde_identity: None,
            personality_address: Some(MACHO_START_MEM_ADDRESS + 0x4000),
            lsda_address: Some(MACHO_START_MEM_ADDRESS + 0x300),
        },
        CompactUnwindEntry {
            function_address: MACHO_START_MEM_ADDRESS + 0x200,
            function_length: 0x10,
            encoding: 0x0400_0000,
            eh_frame_fde_identity: None,
            personality_address: None,
            lsda_address: None,
        },
    ];

    let data = serialize_compact_unwind_info(
        &entries,
        &[MACHO_START_MEM_ADDRESS + 0x4000],
        MACHO_START_MEM_ADDRESS,
    )
    .unwrap();
    let word = |offset| word(&data, offset);

    assert_eq!(word(0), 1);
    assert_eq!(word(12), 28);
    assert_eq!(word(16), 1);
    assert_eq!(word(20), 32);
    assert_eq!(word(24), 2);
    assert_eq!(word(28), 0x4000);

    assert_eq!(word(32), 0x100);
    assert_eq!(word(36), 64);
    assert_eq!(word(40), 56);
    assert_eq!(word(44), 0x210);
    assert_eq!(word(48), 0);
    assert_eq!(word(52), 64);
    assert_eq!(word(56), 0x100);
    assert_eq!(word(60), 0x300);

    assert_eq!(word(64), 2);
    assert_eq!(u16::from_le_bytes(data[68..70].try_into().unwrap()), 8);
    assert_eq!(u16::from_le_bytes(data[70..72].try_into().unwrap()), 2);
    assert_eq!(word(72), 0x100);
    assert_eq!(word(76), 0x5400_0000);
    assert_eq!(word(80), 0x200);
    assert_eq!(word(84), 0x0400_0000);
}

#[test]
fn arm64_dwarf_compact_unwind_rows_use_final_eh_frame_fde_offsets() {
    let function_address = MACHO_START_MEM_ADDRESS + 0x1234;
    let identity = EhFrameFdeIdentity { file_id: 1, function_section_index: 1, function_input_offset: 0x1234 };
    let mut entries = vec![CompactUnwindEntry {
        function_address,
        function_length: 0x20,
        encoding: 0x5300_0000,
        eh_frame_fde_identity: Some(identity),
        personality_address: Some(MACHO_START_MEM_ADDRESS + 0x4000),
        lsda_address: Some(MACHO_START_MEM_ADDRESS + 0x8000),
    }];
    let fde_offsets = BTreeMap::from([(identity.key(), 0x2dc)]);

    rewrite_arm64_dwarf_fde_offsets(&mut entries, &fde_offsets).unwrap();

    assert_eq!(entries[0].encoding, 0x5300_02dc);
}

#[test]
fn compact_unwind_marks_dwarf_row_with_merged_lsda() {
    let entries = [CompactUnwindEntry {
        function_address: MACHO_START_MEM_ADDRESS + 0x100,
        function_length: 0x20,
        encoding: ARM64_UNWIND_MODE_DWARF | 0x2dc,
        eh_frame_fde_identity: None,
        personality_address: Some(MACHO_START_MEM_ADDRESS + 0x4000),
        lsda_address: Some(MACHO_START_MEM_ADDRESS + 0x300),
    }];

    let data = serialize_compact_unwind_info(
        &entries,
        &[MACHO_START_MEM_ADDRESS + 0x4000],
        MACHO_START_MEM_ADDRESS,
    )
    .unwrap();

    assert_eq!(word(&data, 56), 0x100);
    assert_eq!(word(&data, 60), 0x300);
    assert_eq!(word(&data, 76), 0x5300_02dc);
}

#[test]
fn dwarf_rows_without_a_final_fde_are_rejected() {
    let identity = EhFrameFdeIdentity { file_id: 1, function_section_index: 1, function_input_offset: 0 };
    let row = CompactUnwindEntry {
        function_address: 0x1000,
        function_length: 4,
        encoding: ARM64_UNWIND_MODE_DWARF,
        eh_frame_fde_identity: Some(identity),
        personality_address: None,
        lsda_address: None,
    };
    let mut entries = vec![row];
    assert_eq!(
        rewrite_arm64_dwarf_fde_offsets(&mut entries, &BTreeMap::new()),
        Err(CompactUnwindError::MissingFde)
    );
    let mut entries = vec![CompactUnwindEntry { eh_frame_fde_identity: None, ..row }];
    assert_eq!(
        rewrite_arm64_dwarf_fde_offsets(&mut entries, &BTreeMap::new()),
        Err(CompactUnwindError::MissingFdeIdentity)
    );
    let mut entries = vec![row];
    assert_eq!(
        rewrite_arm64_dwarf_fde_offsets(&mut entries, &BTreeMap::from([(identity.key(), 0x100_0000)])),
        Err(CompactUnwindError::FdeOffsetTooLarge)
    );
}

#[test]
fn compact_unwind_capacity_and_image_offsets() {
    assert_eq!(compact_unwind_info_capacity(0), 0);
    assert_eq!(compact_unwind_info_capacity(2), 28 + 12 + 24 + 16 + 8 + 16);
    assert_eq!(compact_unwind_image_offset(0x1_0000_0010, 0x1_0000_0000, "function"), Ok(0x10));
    assert_eq!(
        compact_unwind_image_offset(0xfff, 0x1000, "function"),
        Err(CompactUnwindError::AddressOutOfImage)
    );
}

#[test]
fn preserves_read_only_data_const_segment_semantics() {
    assert!(!SegmentName::data_const().is_writable());
    assert!(!SegmentName::dwarf().is_writable());
    assert!(SegmentName::data().is_writable());
}

#[test]
fn segment_names_are_nul_padded() {
    let name = SegmentName::from_bytes(b"__TEXT");
    assert_eq!(&name.into_bytes()[..6], b"__TEXT");
    assert!(name.into_bytes()[6..].iter().all(|&byte| byte == 0));
    assert!(name.same_as(&SegmentName::text()));
    assert!(!name.same_as(&SegmentName::data()));
}

#[test]
fn serialized_unwind_info_fits_its_reservation() {
    let base = 0x1_0000_0000u64;
    let mut entries = Vec::new();
    for i in 0..600u64 {
        entries.push(CompactUnwindEntry {
            function_address: base + 0x1000 + i * 16,
            function_length: 16,
            encoding: 0x0400_0000,
            eh_frame_fde_identity: None,
            personality_address: if i % 2 == 0 { Some(base + 0x8000) } else { None },
            lsda_address: if i % 2 == 0 { Some(base + 0x9000 + i) } else { None },
        });
    }
    let data = serialize_compact_unwind_info(&entries, &[base + 0x8000], base).unwrap();
    assert!(data.len() <= compact_unwind_info_capacity(entries.len()));
    assert!(data.len() <= compact_unwind_info_capacity(700));
}
