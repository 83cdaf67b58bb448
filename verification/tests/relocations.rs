use object::LittleEndian as LE;
use wild_macho::aarch64::{
    relocation_from_raw, rewrite_tlvp_load_as_add, tls_storage_offset, write_instruction_value,
    write_relocation_value, AArch64Instruction, RelocationError, RelocationKind, RelocationSize,
    THUNK_SIZE,
};
use wild_macho::relocations::{
    decode_relocation, paired_relocations, MachORelocationCache, PairingError, RawRelocation,
    RelocationInfo, ARM64_RELOC_ADDEND, ARM64_RELOC_BRANCH26, ARM64_RELOC_GOT_LOAD_PAGE21,
    ARM64_RELOC_PAGEOFF12, ARM64_RELOC_POINTER_TO_GOT, ARM64_RELOC_SUBTRACTOR,
    ARM64_RELOC_TLVP_LOAD_PAGE21, ARM64_RELOC_TLVP_LOAD_PAGEOFF12, ARM64_RELOC_UNSIGNED,
};

const PAGE_MASK_4KB: u64 = 0xfff;

fn relocation(r_type: u8, r_pcrel: bool, r_length: u8) -> RelocationInfo {
    RelocationInfo { r_address: 0, r_symbolnum: 0, r_pcrel, r_length, r_extern: true, r_type }
}

fn raw_relocation(
    r_address: u32,
    r_symbolnum: u32,
    r_pcrel: bool,
    r_length: u8,
    r_extern: bool,
    r_type: u8,
) -> RawRelocation {
    let record = object::macho::RelocationInfo {
        r_address,
        r_symbolnum,
        r_pcrel,
        r_length,
        r_extern,
        r_type,
    }
    .relocation(LE);
    RawRelocation { word0: record.r_word0.get(LE), word1: record.r_word1.get(LE) }
}

#[test]
fn pointer_to_got_uses_the_got_address_and_its_abi_width() {
    let pc_relative = relocation_from_raw(relocation(ARM64_RELOC_POINTER_TO_GOT, true, 2)).unwrap();
    assert_eq!(pc_relative.kind, RelocationKind::GotRelative);
    assert_eq!(pc_relative.size, RelocationSize::ByteSize(4));
    assert!(pc_relative.range.contains(i64::from(i32::MIN)));
    assert!(pc_relative.range.contains(i64::from(i32::MAX)));
    assert!(!pc_relative.range.contains(i64::from(i32::MAX) + 1));

    let absolute = relocation_from_raw(relocation(ARM64_RELOC_POINTER_TO_GOT, false, 3)).unwrap();
    assert_eq!(absolute.kind, RelocationKind::Got);
    assert_eq!(absolute.size, RelocationSize::ByteSize(8));
}

#[test]
fn rejects_malformed_branch26_instead_of_writing_the_wrong_instruction() {
    let error = relocation_from_raw(relocation(ARM64_RELOC_BRANCH26, false, 2)).unwrap_err();
    assert_eq!(error, RelocationError::PcRelMismatch);
}

#[test]
fn branch26_is_marked_thunkable() {
    let relocation = relocation_from_raw(relocation(ARM64_RELOC_BRANCH26, true, 2)).unwrap();
    assert!(relocation.thunkable);
    assert_eq!(THUNK_SIZE, 12);
}

#[test]
fn rejects_an_unpaired_addend_after_macho_normalization() {
    let error = relocation_from_raw(relocation(ARM64_RELOC_ADDEND, false, 2)).unwrap_err();
    assert_eq!(error, RelocationError::UnpairedAddend);
}

#[test]
fn rejects_an_unpaired_subtractor_after_macho_normalization() {
    let error = relocation_from_raw(relocation(ARM64_RELOC_SUBTRACTOR, false, 3)).unwrap_err();
    assert_eq!(error, RelocationError::UnpairedSubtractor);
}

#[test]
fn local_tlvp_loads_resolve_the_thread_variable_descriptor_directly() {
    let page = relocation_from_raw(relocation(ARM64_RELOC_TLVP_LOAD_PAGE21, true, 2)).unwrap();
    assert_eq!(page.kind, RelocationKind::Relative);
    assert_eq!(page.page_mask, Some(PAGE_MASK_4KB));

    let pageoff = relocation_from_raw(relocation(ARM64_RELOC_TLVP_LOAD_PAGEOFF12, false, 2)).unwrap();
    assert_eq!(pageoff.kind, RelocationKind::AbsoluteLowPart);
}

#[test]
fn unknown_relocation_types_are_rejected() {
    assert_eq!(relocation_from_raw(relocation(13, false, 3)), Err(RelocationError::UnknownType));
}

#[test]
fn decoding_a_record_reads_every_field() {
    let raw = raw_relocation(0x1234, 0x00ab_cdef, true, 2, true, ARM64_RELOC_BRANCH26);
    let info = decode_relocation(raw);
    assert_eq!(
        info,
        RelocationInfo {
            r_address: 0x1234,
            r_symbolnum: 0x00ab_cdef,
            r_pcrel: true,
            r_length: 2,
            r_extern: true,
            r_type: ARM64_RELOC_BRANCH26,
        }
    );
}

#[test]
fn folds_signed_arm64_addends_into_the_following_relocation() {
    let relocations = [
        raw_relocation(8, 0x24, false, 2, false, ARM64_RELOC_ADDEND),
        raw_relocation(8, 7, true, 2, true, ARM64_RELOC_BRANCH26),
        raw_relocation(4, 0x00ff_fffc, false, 2, false, ARM64_RELOC_ADDEND),
        raw_relocation(4, 3, false, 2, true, ARM64_RELOC_PAGEOFF12),
    ];

    let relocations = paired_relocations(&relocations).unwrap();

    assert_eq!(relocations.len(), 2);
    assert_eq!(relocations[0].info.r_type, ARM64_RELOC_BRANCH26);
    assert_eq!(relocations[0].addend, 0x24);
    assert_eq!(relocations[1].info.r_type, ARM64_RELOC_PAGEOFF12);
    assert_eq!(relocations[1].addend, -4);
}

#[test]
fn relocation_cache_reuses_normalized_section_relocations() {
    let relocations = [
        raw_relocation(8, 0x24, false, 2, false, ARM64_RELOC_ADDEND),
        raw_relocation(8, 7, true, 2, true, ARM64_RELOC_BRANCH26),
    ];
    let section_index = 3;
    let mut cache = MachORelocationCache::new();

    cache.cache(section_index, &relocations).unwrap();
    assert_eq!(cache.for_section(section_index).len(), 1);
    assert_eq!(cache.for_section(section_index)[0].info.r_type, ARM64_RELOC_BRANCH26);
    assert_eq!(cache.for_section(section_index)[0].addend, 0x24);

    let malformed = [raw_relocation(0, 1, false, 2, false, ARM64_RELOC_ADDEND)];
    cache.cache(section_index, &malformed).unwrap();
    assert_eq!(cache.for_section(section_index).len(), 1);
    assert_eq!(cache.for_section(section_index)[0].info.r_type, ARM64_RELOC_BRANCH26);
}

#[test]
fn relocation_cache_selects_only_the_current_atom_range() {
    let relocations = [
        raw_relocation(20, 1, true, 2, true, ARM64_RELOC_BRANCH26),
        raw_relocation(4, 2, true, 2, true, ARM64_RELOC_BRANCH26),
        raw_relocation(12, 3, true, 2, true, ARM64_RELOC_BRANCH26),
    ];
    let section_index = 0;
    let mut cache = MachORelocationCache::new();

    cache.cache(section_index, &relocations).unwrap();

    assert_eq!(
        cache
            .for_range(section_index, &(8..16))
            .iter()
            .map(|relocation| relocation.info.r_address)
            .collect::<Vec<_>>(),
        vec![12]
    );
    assert_eq!(
        cache
            .for_range(section_index, &(0..32))
            .iter()
            .map(|relocation| relocation.info.r_address)
            .collect::<Vec<_>>(),
        vec![4, 12, 20]
    );
}

#[test]
fn preserves_arm64_subtractor_pairs_as_one_relocation_expression() {
    let relocations = [
        raw_relocation(16, 5, false, 3, true, ARM64_RELOC_SUBTRACTOR),
        raw_relocation(16, 9, false, 3, true, ARM64_RELOC_UNSIGNED),
    ];

    let relocations = paired_relocations(&relocations).unwrap();

    assert_eq!(relocations.len(), 1);
    assert_eq!(relocations[0].info.r_type, ARM64_RELOC_UNSIGNED);
    assert_eq!(relocations[0].info.r_symbolnum, 9);
    assert_eq!(
        relocations[0].subtractor.unwrap().r_symbolnum,
        5,
        "the subtractor remains associated with the unsigned minuend"
    );
}

#[test]
fn rejects_malformed_arm64_addend_pairs() {
    let missing_primary = [raw_relocation(0, 1, false, 2, false, ARM64_RELOC_ADDEND)];
    assert_eq!(paired_relocations(&missing_primary), Err(PairingError::AddendUnpaired));

    let wrong_offset = [
        raw_relocation(4, 1, false, 2, false, ARM64_RELOC_ADDEND),
        raw_relocation(0, 3, true, 2, true, ARM64_RELOC_BRANCH26),
    ];
    assert_eq!(paired_relocations(&wrong_offset), Err(PairingError::AddendOffsetMismatch));

    let wrong_target = [
        raw_relocation(0, 1, false, 2, false, ARM64_RELOC_ADDEND),
        raw_relocation(0, 3, true, 2, true, ARM64_RELOC_GOT_LOAD_PAGE21),
    ];
    assert_eq!(paired_relocations(&wrong_target), Err(PairingError::AddendTarget));
}

#[test]
fn rejects_malformed_arm64_subtractor_pairs() {
    let missing_unsigned = [raw_relocation(0, 1, false, 3, true, ARM64_RELOC_SUBTRACTOR)];
    assert_eq!(paired_relocations(&missing_unsigned), Err(PairingError::SubtractorUnpaired));

    let wrong_offset = [
        raw_relocation(4, 1, false, 3, true, ARM64_RELOC_SUBTRACTOR),
        raw_relocation(0, 3, false, 3, true, ARM64_RELOC_UNSIGNED),
    ];
    assert_eq!(paired_relocations(&wrong_offset), Err(PairingError::SubtractorOffsetMismatch));

    let unsupported_fields = [
        raw_relocation(0, 1, false, 2, true, ARM64_RELOC_SUBTRACTOR),
        raw_relocation(0, 3, false, 2, true, ARM64_RELOC_UNSIGNED),
    ];
    assert_eq!(paired_relocations(&unsupported_fields), Err(PairingError::SubtractorForm));
}

#[test]
fn tlvp_pageoff_rewrites_ldr_to_add_preserving_registers() {
    // ldr x5, [x3, #0x40]
    let mut instruction = 0xf940_2065u32.to_le_bytes();

    rewrite_tlvp_load_as_add(&mut instruction).unwrap();

    // add x5, x3, #0; relocation application fills the immediate afterwards.
    assert_eq!(u32::from_le_bytes(instruction), 0x9100_0065);
    write_instruction_value(AArch64Instruction::Add, 0x44, &mut instruction);
    assert_eq!(u32::from_le_bytes(instruction), 0x9101_1065);
}

#[test]
fn tlvp_pageoff_rejects_non_ldr_instruction() {
    let mut instruction = 0x9100_0000u32.to_le_bytes();

    let error = rewrite_tlvp_load_as_add(&mut instruction).unwrap_err();

    assert_eq!(error, RelocationError::NotAnLdr);
}

#[test]
fn tlv_descriptor_data_pointer_is_an_offset_within_tls_storage() {
    assert_eq!(tls_storage_offset(0x1_0000_8014, 0x1_0000_8000).unwrap(), 0x14);

    let error = tls_storage_offset(0x1_0000_7ff8, 0x1_0000_8000).unwrap_err();
    assert_eq!(error, RelocationError::BeforeTlsStorage);
}

#[test]
fn branch26_values_land_in_the_instruction_and_out_of_range_values_are_refused() {
    let info = relocation_from_raw(relocation(ARM64_RELOC_BRANCH26, true, 2)).unwrap();
    // bl #0
    let mut instruction = 0x9400_0000u32.to_le_bytes();
    write_relocation_value(&info, 0x40, &mut instruction).unwrap();
    assert_eq!(u32::from_le_bytes(instruction), 0x9400_0010);
    assert_eq!(write_relocation_value(&info, 0x2, &mut instruction), Err(RelocationError::Misaligned));
    assert_eq!(
        write_relocation_value(&info, 0x800_0000, &mut instruction),
        Err(RelocationError::OutOfRange)
    );
}
