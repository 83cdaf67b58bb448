use wild_macho::header_sizes::{allocate_header_sizes, HeaderSizeInputs};
use wild_macho::atoms::{atom_range, section_atom_starts, AtomError};
use wild_macho::headers::{
    populate_file_header, write_build_version_command, write_code_signature_command,
    write_dyld_chained_fixups_command, write_entry_point_command,
    write_exports_trie_command, write_segment_commands, write_symtab_command, HeaderError,
    SectionHeaderInfo, SegmentCommandInfo, LC_BUILD_VERSION, LC_DYLD_EXPORTS_TRIE, LC_MAIN,
    LC_CODE_SIGNATURE, LC_DYLD_CHAINED_FIXUPS, LC_SEGMENT_64, LC_SYMTAB, MH_DYLIB, MH_EXECUTE,
    MH_MAGIC_64,
};
use wild_macho::relocations::{NormalizedRelocation, RelocationInfo, ARM64_RELOC_UNSIGNED};
use wild_macho::segment::SegmentName;
use wild_macho::unwind_records::{
    compact_unwind_optional_target, compact_unwind_u32, compact_unwind_u64,
    parse_compact_unwind_records, CompactUnwindReadError,
};

fn u32_at(bytes: &[u8], offset: usize) -> u32 {
    u32::from_le_bytes(bytes[offset..offset + 4].try_into().unwrap())
}

fn u64_at(bytes: &[u8], offset: usize) -> u64 {
    u64::from_le_bytes(bytes[offset..offset + 8].try_into().unwrap())
}

fn pointer_relocation(r_address: u32, r_length: u8) -> NormalizedRelocation {
    NormalizedRelocation {
        info: RelocationInfo {
            r_address,
            r_symbolnum: 1,
            r_pcrel: false,
            r_length,
            r_extern: true,
            r_type: ARM64_RELOC_UNSIGNED,
        },
        addend: 0,
        subtractor: None,
    }
}

#[test]
fn atom_starts_skip_symbols_inside_a_relocated_field() {
    // A pointer at 0x10..0x18 makes the symbol at 0x14 part of the atom that starts at 0x10.
    let starts =
        section_atom_starts(0x40, &[0x10, 0x14, 0x20, 0x10], &[pointer_relocation(0x10, 3)])
            .unwrap();
    assert_eq!(starts, vec![0, 0x10, 0x20]);
}

#[test]
fn atom_starts_reject_a_symbol_past_the_section() {
    assert_eq!(section_atom_starts(0x10, &[0x11], &[]), Err(AtomError::SymbolPastSection));
}

#[test]
fn atom_starts_reject_a_relocation_past_the_section() {
    assert_eq!(
        section_atom_starts(0x10, &[], &[pointer_relocation(0xc, 3)]),
        Err(AtomError::RelocationPastSection)
    );
    assert_eq!(
        section_atom_starts(0x10, &[], &[pointer_relocation(0, 64)]),
        Err(AtomError::InvalidRelocationWidth)
    );
}

#[test]
fn atom_range_runs_to_the_next_boundary_or_the_section_end() {
    let starts = [0u64, 0x10, 0x20];
    assert_eq!(atom_range(0x40, &starts, 0x14), Ok(0x14..0x20));
    assert_eq!(atom_range(0x40, &starts, 0x20), Ok(0x20..0x40));
    assert_eq!(atom_range(0x40, &starts, 0), Ok(0..0x10));
    assert_eq!(atom_range(0x40, &[0x10], 0x8), Err(AtomError::SymbolBeforeSection));
}

#[test]
fn executable_file_header_is_position_independent() {
    let mut header = [0u8; 32];
    populate_file_header(&mut header, false, true, 7, 0x300, true);
    assert_eq!(u32_at(&header, 0), MH_MAGIC_64);
    assert_eq!(u32_at(&header, 4), 0x0100_000c);
    assert_eq!(u32_at(&header, 12), MH_EXECUTE);
    assert_eq!(u32_at(&header, 16), 7);
    assert_eq!(u32_at(&header, 20), 0x300);
    assert_eq!(u32_at(&header, 24), 0x1 | 0x4 | 0x80 | 0x20_0000 | 0x80_0000);
    assert_eq!(u32_at(&header, 28), 0);

    populate_file_header(&mut header, true, false, 3, 0x100, false);
    assert_eq!(u32_at(&header, 12), MH_DYLIB);
    assert_eq!(u32_at(&header, 24), 0x1 | 0x4 | 0x80);
}

#[test]
fn segment_commands_start_with_pagezero_for_an_executable() {
    let segments = vec![SegmentCommandInfo {
        name: SegmentName::text(),
        protection: 5,
        file_offset: 0,
        file_size: 0x4000,
        mem_offset: 0x1_0000_0000,
        mem_size: 0x4000,
        flags: 0,
        sections: vec![SectionHeaderInfo {
            name: b"__text".to_vec(),
            mem_offset: 0x1_0000_1000,
            mem_size: 0x20,
            file_offset: 0x1000,
            alignment_exponent: 2,
            flags: 0x8000_0400,
        }],
    }];
    let mut commands = vec![0xaau8; 72 + 72 + 80 + 8];
    let written = write_segment_commands(&mut commands, true, &segments).unwrap();
    assert_eq!(written, 72 + 72 + 80);
    assert_eq!(u32_at(&commands, 0), LC_SEGMENT_64);
    assert_eq!(u32_at(&commands, 4), 72);
    assert_eq!(&commands[8..19], b"__PAGEZERO\0");
    assert_eq!(u64_at(&commands, 32), 0x1_0000_0000);
    assert_eq!(u32_at(&commands, 72), LC_SEGMENT_64);
    assert_eq!(u32_at(&commands, 76), 72 + 80);
    assert_eq!(&commands[80..87], b"__TEXT\0");
    assert_eq!(u32_at(&commands, 72 + 64), 1);
    assert_eq!(&commands[144..151], b"__text\0");
    assert_eq!(&commands[160..167], b"__TEXT\0");
    assert_eq!(u64_at(&commands, 176), 0x1_0000_1000);
    assert_eq!(u64_at(&commands, 184), 0x20);
    assert_eq!(u32_at(&commands, 192), 0x1000);
    assert_eq!(u32_at(&commands, 196), 2);
    assert_eq!(u32_at(&commands, 208), 0x8000_0400);
    assert_eq!(&commands[224..], &[0xaa; 8]);

    let mut too_small = vec![0u8; 100];
    assert_eq!(
        write_segment_commands(&mut too_small, true, &segments),
        Err(HeaderError::InvalidAllocation)
    );
    assert_eq!(too_small, vec![0u8; 100]);
}

#[test]
fn fixed_load_commands_hold_their_fields() {
    let mut main = [0u8; 24];
    write_entry_point_command(&mut main, 0x1_0000_0480, 0x1_0000_0000).unwrap();
    assert_eq!(u32_at(&main, 0), LC_MAIN);
    assert_eq!(u64_at(&main, 8), 0x480);
    assert_eq!(
        write_entry_point_command(&mut main, 0x10, 0x1_0000_0000),
        Err(HeaderError::EntryBeforeImageBase)
    );

    let mut build = [0u8; 24];
    assert_eq!(
        write_build_version_command(&mut build, None),
        Err(HeaderError::MissingPlatformVersion)
    );
    write_build_version_command(&mut build, Some((0x000e_0000, 0x000f_0000))).unwrap();
    assert_eq!(u32_at(&build, 0), LC_BUILD_VERSION);
    assert_eq!(u32_at(&build, 8), 1);
    assert_eq!(u32_at(&build, 12), 0x000e_0000);
    assert_eq!(u32_at(&build, 16), 0x000f_0000);

    let mut symtab = [0u8; 24];
    write_symtab_command(&mut symtab, 0x8000, 48, 0x8030, 0x40);
    assert_eq!(u32_at(&symtab, 0), LC_SYMTAB);
    assert_eq!(u32_at(&symtab, 8), 0x8000);
    assert_eq!(u32_at(&symtab, 12), 3);
    assert_eq!(u32_at(&symtab, 16), 0x8030);
    assert_eq!(u32_at(&symtab, 20), 0x40);

    let mut trie = [0u8; 16];
    write_exports_trie_command(&mut trie, 0x9000, 0x28).unwrap();
    assert_eq!(u32_at(&trie, 0), LC_DYLD_EXPORTS_TRIE);
    assert_eq!(u32_at(&trie, 8), 0x9000);
    assert_eq!(u32_at(&trie, 12), 0x28);
    assert_eq!(
        write_exports_trie_command(&mut trie, 0x1_0000_0000, 0),
        Err(HeaderError::FieldTooLarge)
    );
}

fn compact_unwind_row(function: u64, length: u32, encoding: u32, personality: u64, lsda: u64) -> Vec<u8> {
    let mut row = Vec::new();
    row.extend_from_slice(&function.to_le_bytes());
    row.extend_from_slice(&length.to_le_bytes());
    row.extend_from_slice(&encoding.to_le_bytes());
    row.extend_from_slice(&personality.to_le_bytes());
    row.extend_from_slice(&lsda.to_le_bytes());
    row
}

fn unsigned_pointer(r_address: u32, r_symbolnum: u32) -> RelocationInfo {
    RelocationInfo {
        r_address,
        r_symbolnum,
        r_pcrel: false,
        r_length: 3,
        r_extern: true,
        r_type: ARM64_RELOC_UNSIGNED,
    }
}

#[test]
fn compact_unwind_rows_carry_the_relocations_of_their_words() {
    let mut data = compact_unwind_row(0x10, 0x40, 0x0200_0000, 0, 0x8);
    data.extend(compact_unwind_row(0x50, 0x20, 0x0400_0000, 0, 0));
    let relocations =
        [unsigned_pointer(0, 1), unsigned_pointer(24, 9), unsigned_pointer(32, 2)];
    let records = parse_compact_unwind_records(&data, &relocations).unwrap();
    assert_eq!(records.len(), 2);
    assert_eq!(records[0].record_offset, 0);
    assert_eq!(records[0].function_addend, 0x10);
    assert_eq!(records[0].function_length, 0x40);
    assert_eq!(records[0].encoding, 0x0200_0000);
    assert_eq!(records[0].lsda_addend, 0x8);
    assert_eq!(records[0].function_relocation, relocations[0]);
    assert_eq!(records[0].personality_relocation, None);
    assert_eq!(records[0].lsda_relocation, Some(relocations[1]));
    assert_eq!(records[1].record_offset, 32);
    assert_eq!(records[1].function_relocation, relocations[2]);
    assert_eq!(records[1].lsda_relocation, None);
}

#[test]
fn compact_unwind_rows_reject_malformed_sections() {
    let row = compact_unwind_row(0, 0x40, 0, 0, 0);
    assert_eq!(
        parse_compact_unwind_records(&row[..31], &[]),
        Err(CompactUnwindReadError::MalformedSize)
    );
    let mut pcrel = unsigned_pointer(0, 1);
    pcrel.r_pcrel = true;
    assert_eq!(
        parse_compact_unwind_records(&row, &[pcrel]),
        Err(CompactUnwindReadError::UnsupportedRelocation)
    );
    assert_eq!(
        parse_compact_unwind_records(&row, &[unsigned_pointer(8, 1)]),
        Err(CompactUnwindReadError::UnsupportedRelocationOffset)
    );
    assert_eq!(
        parse_compact_unwind_records(&row, &[unsigned_pointer(0, 1), unsigned_pointer(0, 2)]),
        Err(CompactUnwindReadError::DuplicateRelocation)
    );
    assert_eq!(
        parse_compact_unwind_records(&row, &[]),
        Err(CompactUnwindReadError::MissingFunctionRelocation)
    );
    let empty_function = compact_unwind_row(0, 0, 0, 0, 0);
    assert_eq!(
        parse_compact_unwind_records(&empty_function, &[unsigned_pointer(0, 1)]),
        Err(CompactUnwindReadError::ZeroLengthFunction)
    );
}

#[test]
fn compact_unwind_fields_and_optional_targets() {
    let row = compact_unwind_row(0x1122, 0x40, 7, 0, 0);
    assert_eq!(compact_unwind_u64(&row, 0), Ok(0x1122));
    assert_eq!(compact_unwind_u32(&row, 8), Ok(0x40));
    assert_eq!(compact_unwind_u32(&row, 30), Err(CompactUnwindReadError::TruncatedField));
    assert_eq!(compact_unwind_u64(&row, 25), Err(CompactUnwindReadError::TruncatedField));

    let relocation = unsigned_pointer(16, 4);
    assert_eq!(compact_unwind_optional_target(Some(relocation), 8), Ok(Some((relocation, 8))));
    assert_eq!(compact_unwind_optional_target(None, 0), Ok(None));
    assert_eq!(
        compact_unwind_optional_target(None, 8),
        Err(CompactUnwindReadError::TargetWithoutRelocation)
    );
}

#[test]
fn header_reservation_counts_every_load_command() {
    let executable = HeaderSizeInputs {
        is_executable: true,
        is_shared_object: false,
        needs_dynsym: false,
        has_platform_version: true,
        segment_section_counts: vec![1, 2],
        install_name: Vec::new(),
        rpaths: vec![b"@loader_path".to_vec()],
        imported_install_names: vec![b"/usr/lib/libSystem.B.dylib".to_vec()],
    };
    let sizes = allocate_header_sizes(&executable);
    assert_eq!(sizes.file_header_size, 32);
    assert_eq!(sizes.load_command_sizes, vec![72, 152, 232, 24, 32, 32, 56, 16, 24, 16, 24, 24]);
    assert_eq!(sizes.load_commands_size, 704);
    assert_eq!(sizes.load_dylib_command_sizes, vec![56]);

    let dylib = HeaderSizeInputs {
        is_executable: false,
        is_shared_object: true,
        needs_dynsym: true,
        has_platform_version: false,
        segment_section_counts: vec![1],
        install_name: b"@rpath/libfoo.dylib".to_vec(),
        rpaths: Vec::new(),
        imported_install_names: Vec::new(),
    };
    let sizes = allocate_header_sizes(&dylib);
    assert_eq!(sizes.load_command_sizes, vec![152, 48, 16, 16, 24, 16, 24]);
    assert_eq!(sizes.load_commands_size, 296);
    assert!(sizes.load_dylib_command_sizes.is_empty());
}

#[test]
fn reserved_segment_commands_match_the_written_ones() {
    let segments = vec![SegmentCommandInfo {
        name: SegmentName::text(),
        protection: 5,
        file_offset: 0,
        file_size: 0x4000,
        mem_offset: 0x1_0000_0000,
        mem_size: 0x4000,
        flags: 0,
        sections: vec![SectionHeaderInfo {
            name: b"__text".to_vec(),
            mem_offset: 0x1_0000_1000,
            mem_size: 0x20,
            file_offset: 0x1000,
            alignment_exponent: 2,
            flags: 0,
        }],
    }];
    let inputs = HeaderSizeInputs {
        is_executable: true,
        is_shared_object: false,
        needs_dynsym: false,
        has_platform_version: false,
        segment_section_counts: vec![1],
        install_name: Vec::new(),
        rpaths: Vec::new(),
        imported_install_names: Vec::new(),
    };
    let sizes = allocate_header_sizes(&inputs);
    let mut commands = vec![0u8; 1024];
    let written = write_segment_commands(&mut commands, true, &segments).unwrap();
    assert_eq!(written as u64, sizes.load_command_sizes[0] + sizes.load_command_sizes[1]);
}

#[test]
fn linkedit_data_commands_keep_the_low_32_bits() {
    let mut fixups = [0u8; 16];
    write_dyld_chained_fixups_command(&mut fixups, 0x8000, 0x58);
    assert_eq!(u32_at(&fixups, 0), LC_DYLD_CHAINED_FIXUPS);
    assert_eq!(u32_at(&fixups, 4), 16);
    assert_eq!(u32_at(&fixups, 8), 0x8000);
    assert_eq!(u32_at(&fixups, 12), 0x58);
    let mut signature = [0u8; 16];
    write_code_signature_command(&mut signature, 0x1_0000_9000, 0x120);
    assert_eq!(u32_at(&signature, 0), LC_CODE_SIGNATURE);
    assert_eq!(u32_at(&signature, 8), 0x9000);
    assert_eq!(u32_at(&signature, 12), 0x120);
}
