use std::collections::BTreeMap;
use wild_macho::aarch64::{
    maybe_get_thunk_for_relocation, relocation_from_raw, tlv_descriptor_tls_data_start,
    OutputSectionStart, RelocationError,
};
use wild_macho::eh_frame_relocations::{
    augmentation_relocations, eh_frame_difference_symbol, eh_frame_function_symbol,
    eh_frame_personality_symbol, eh_frame_relocations, eh_frame_required_target,
    eh_frame_target_symbol, EhFrameRelocationError,
};
use wild_macho::relocations::{
    RelocationInfo, ARM64_RELOC_BRANCH26, ARM64_RELOC_PAGE21, ARM64_RELOC_POINTER_TO_GOT,
    ARM64_RELOC_SUBTRACTOR, ARM64_RELOC_UNSIGNED,
};
use wild_macho::sections::{
    S_REGULAR, S_THREAD_LOCAL_REGULAR, S_THREAD_LOCAL_VARIABLES, S_THREAD_LOCAL_ZEROFILL,
};

fn relocation(r_address: u32, r_symbolnum: u32, r_type: u8, r_pcrel: bool, r_length: u8) -> RelocationInfo {
    RelocationInfo { r_address, r_symbolnum, r_pcrel, r_length, r_extern: true, r_type }
}

fn branch26() -> wild_macho::aarch64::RelocationKindInfo {
    relocation_from_raw(relocation(0, 1, ARM64_RELOC_BRANCH26, true, 2)).unwrap()
}

#[test]
fn a_branch_in_reach_needs_no_island() {
    let islands = vec![BTreeMap::new()];
    assert_eq!(maybe_get_thunk_for_relocation(&branch26(), true, 0, &islands, 7, 0x1000, 0x400), Ok(None));
    // A page relocation is never redirected, whatever its value.
    let page = relocation_from_raw(relocation(0, 1, ARM64_RELOC_PAGE21, true, 2)).unwrap();
    assert_eq!(
        maybe_get_thunk_for_relocation(&page, true, 0, &islands, 7, 0x1000, 0x4000_0000_0000),
        Ok(None)
    );
}

#[test]
fn a_far_branch_goes_to_its_island() {
    let mut first = BTreeMap::new();
    first.insert(7u32, 0x2000u64);
    let mut second = BTreeMap::new();
    second.insert(7u32, 0x9000u64);
    let islands = vec![first, second];
    let far = 0x1000_0000u64;
    // Code of the primary text part uses the object's own block.
    assert_eq!(
        maybe_get_thunk_for_relocation(&branch26(), true, 1, &islands, 7, 0x1000, far),
        Ok(Some(0x8000))
    );
    // Other code uses the first block.
    assert_eq!(
        maybe_get_thunk_for_relocation(&branch26(), false, 1, &islands, 7, 0x1000, far),
        Ok(Some(0x1000))
    );
    assert_eq!(
        maybe_get_thunk_for_relocation(&branch26(), false, 1, &islands, 8, 0x1000, far),
        Err(RelocationError::NoBranchIsland)
    );
    assert_eq!(
        maybe_get_thunk_for_relocation(&branch26(), true, 5, &islands, 7, 0x1000, far),
        Err(RelocationError::NoBranchIsland)
    );
    let mut unassigned = BTreeMap::new();
    unassigned.insert(7u32, 0u64);
    assert_eq!(
        maybe_get_thunk_for_relocation(&branch26(), false, 0, &[unassigned], 7, 0x1000, far),
        Err(RelocationError::BranchIslandUnassigned)
    );
    let mut distant = BTreeMap::new();
    distant.insert(7u32, 0x4000_0000u64);
    assert_eq!(
        maybe_get_thunk_for_relocation(&branch26(), false, 0, &[distant], 7, 0x1000, far),
        Err(RelocationError::OutOfRange)
    );
}

#[test]
fn tlv_descriptor_data_pointers_start_at_the_lowest_tls_section() {
    let sections = [
        OutputSectionStart { section_type: S_REGULAR, emitted: true, mem_offset: 0x100 },
        OutputSectionStart { section_type: S_THREAD_LOCAL_ZEROFILL, emitted: true, mem_offset: 0x5000 },
        OutputSectionStart { section_type: S_THREAD_LOCAL_REGULAR, emitted: false, mem_offset: 0x3000 },
        OutputSectionStart { section_type: S_THREAD_LOCAL_REGULAR, emitted: true, mem_offset: 0x4000 },
    ];
    assert_eq!(
        tlv_descriptor_tls_data_start(
            ARM64_RELOC_UNSIGNED,
            S_THREAD_LOCAL_VARIABLES,
            Some(S_THREAD_LOCAL_REGULAR),
            &sections
        ),
        Ok(Some(0x4000))
    );
    // The bootstrap pointer of a descriptor targets code, not TLS storage.
    assert_eq!(
        tlv_descriptor_tls_data_start(ARM64_RELOC_UNSIGNED, S_THREAD_LOCAL_VARIABLES, Some(S_REGULAR), &sections),
        Ok(None)
    );
    assert_eq!(
        tlv_descriptor_tls_data_start(ARM64_RELOC_UNSIGNED, S_REGULAR, Some(S_THREAD_LOCAL_REGULAR), &sections),
        Ok(None)
    );
    assert_eq!(
        tlv_descriptor_tls_data_start(ARM64_RELOC_UNSIGNED, S_THREAD_LOCAL_VARIABLES, None, &sections),
        Ok(None)
    );
    assert_eq!(
        tlv_descriptor_tls_data_start(
            ARM64_RELOC_UNSIGNED,
            S_THREAD_LOCAL_VARIABLES,
            Some(S_THREAD_LOCAL_ZEROFILL),
            &sections[..1]
        ),
        Err(RelocationError::NoTlsStorage)
    );
}

#[test]
fn eh_frame_relocations_are_grouped_by_field_in_order() {
    let relocations = [
        relocation(0x20, 3, ARM64_RELOC_SUBTRACTOR, false, 3),
        relocation(0x10, 9, ARM64_RELOC_POINTER_TO_GOT, true, 2),
        relocation(0x20, 4, ARM64_RELOC_UNSIGNED, false, 3),
    ];
    let grouped = eh_frame_relocations(&relocations);
    assert_eq!(grouped.len(), 2);
    assert_eq!(grouped[&0x20], vec![relocations[0], relocations[2]]);
    assert_eq!(grouped[&0x10], vec![relocations[1]]);

    assert_eq!(eh_frame_difference_symbol(&grouped, 0x20), Ok(4));
    assert_eq!(eh_frame_personality_symbol(&grouped, 0x10), Ok(9));
    assert_eq!(eh_frame_function_symbol(&grouped, 0x20), Ok(4));
    assert_eq!(
        eh_frame_difference_symbol(&grouped, 0x30),
        Err(EhFrameRelocationError::MissingRelocation)
    );
    assert_eq!(
        eh_frame_difference_symbol(&grouped, 0x10),
        Err(EhFrameRelocationError::UnsupportedSequence)
    );
    assert_eq!(
        eh_frame_personality_symbol(&grouped, 0x20),
        Err(EhFrameRelocationError::UnsupportedSequence)
    );
    assert_eq!(
        eh_frame_function_symbol(&grouped, 0x10),
        Err(EhFrameRelocationError::MissingUnsigned)
    );
}

#[test]
fn eh_frame_fields_reject_the_wrong_relocation_forms() {
    let pcrel_pair = [
        relocation(0x20, 3, ARM64_RELOC_SUBTRACTOR, true, 3),
        relocation(0x20, 4, ARM64_RELOC_UNSIGNED, false, 3),
    ];
    assert_eq!(
        eh_frame_difference_symbol(&eh_frame_relocations(&pcrel_pair), 0x20),
        Err(EhFrameRelocationError::UnsupportedPair)
    );
    let two_unsigned = [
        relocation(0x20, 3, ARM64_RELOC_UNSIGNED, false, 3),
        relocation(0x20, 4, ARM64_RELOC_UNSIGNED, false, 3),
    ];
    assert_eq!(
        eh_frame_difference_symbol(&eh_frame_relocations(&two_unsigned), 0x20),
        Err(EhFrameRelocationError::MissingSubtractor)
    );
    let absolute_personality = [relocation(0x10, 9, ARM64_RELOC_POINTER_TO_GOT, false, 3)];
    assert_eq!(
        eh_frame_personality_symbol(&eh_frame_relocations(&absolute_personality), 0x10),
        Err(EhFrameRelocationError::UnsupportedRelocation)
    );
    let mut local_function = relocation(0x8, 2, ARM64_RELOC_UNSIGNED, false, 3);
    local_function.r_extern = false;
    assert_eq!(
        eh_frame_function_symbol(&eh_frame_relocations(&[local_function]), 0x8),
        Err(EhFrameRelocationError::LocalFunction)
    );
}

#[test]
fn augmentation_relocations_are_unique_per_field() {
    let relocations = [
        relocation(0x8, 1, ARM64_RELOC_UNSIGNED, false, 3),
        relocation(0x8, 2, ARM64_RELOC_SUBTRACTOR, false, 3),
        relocation(0x18, 3, ARM64_RELOC_POINTER_TO_GOT, true, 2),
    ];
    let map = augmentation_relocations(&relocations).unwrap();
    assert_eq!(map.len(), 2);
    assert_eq!(map[&0x8], relocations[0]);
    assert_eq!(map[&0x18], relocations[2]);
    let duplicate = [relocations[0], relocation(0x8, 5, ARM64_RELOC_POINTER_TO_GOT, true, 2)];
    assert_eq!(
        augmentation_relocations(&duplicate).unwrap_err(),
        EhFrameRelocationError::DuplicateRelocation
    );

    assert_eq!(eh_frame_target_symbol(relocations[2], ARM64_RELOC_POINTER_TO_GOT), Ok(3));
    assert_eq!(eh_frame_target_symbol(relocations[0], ARM64_RELOC_UNSIGNED), Ok(1));
    assert_eq!(
        eh_frame_target_symbol(relocations[0], ARM64_RELOC_POINTER_TO_GOT),
        Err(EhFrameRelocationError::UnsupportedRelocation)
    );
    assert_eq!(
        eh_frame_target_symbol(relocation(0x8, 1, ARM64_RELOC_UNSIGNED, true, 3), ARM64_RELOC_UNSIGNED),
        Err(EhFrameRelocationError::UnsupportedRelocation)
    );

    assert_eq!(eh_frame_required_target(None, false), Ok(None));
    assert_eq!(eh_frame_required_target(Some(0x40), true), Ok(Some(0x40)));
    assert_eq!(eh_frame_required_target(None, true), Err(EhFrameRelocationError::UnresolvedTarget));
}
