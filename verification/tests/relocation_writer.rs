use std::collections::BTreeMap;
use wild_macho::aarch64::RelocationError;
use wild_macho::relocation_writer::{apply_relocation, relocation_storage_range, RelocationTarget};
use wild_macho::relocations::{
    RelocationInfo, ARM64_RELOC_BRANCH26, ARM64_RELOC_GOT_LOAD_PAGE21, ARM64_RELOC_PAGE21,
    ARM64_RELOC_TLVP_LOAD_PAGEOFF12, ARM64_RELOC_UNSIGNED,
};
use wild_macho::symbols::Resolution;

fn rel(r_type: u8, r_pcrel: bool, r_length: u8) -> RelocationInfo {
    RelocationInfo { r_address: 0, r_symbolnum: 1, r_pcrel, r_length, r_extern: true, r_type }
}

fn resolved(raw_value: u64) -> Resolution {
    Resolution {
        raw_value,
        dynamic_symbol_index: None,
        symbol_address: raw_value,
        got_address: None,
        tlvp_address: None,
        plt_address: None,
    }
}

fn target(resolution: Resolution) -> RelocationTarget {
    RelocationTarget {
        resolution,
        needs_got_tls_descriptor: false,
        objc_message: false,
        objc_stub_index: None,
        tls_data_start: None,
    }
}

fn word(out: &[u8], offset: usize) -> u32 {
    u32::from_le_bytes(out[offset..offset + 4].try_into().unwrap())
}

fn apply(
    r: RelocationInfo,
    addend: i64,
    subtrahend: Option<u64>,
    t: &RelocationTarget,
    section_address: u64,
    output_offset: u64,
    out: &mut [u8],
) -> Result<(), RelocationError> {
    apply_relocation(r, addend, subtrahend, t, 0x4000, true, 0, &[BTreeMap::new()], 1, section_address, output_offset, out)
}

#[test]
fn a_call_gets_its_word_offset() {
    let mut out = vec![0u8; 8];
    out[4..8].copy_from_slice(&0x9400_0000u32.to_le_bytes());
    apply(rel(ARM64_RELOC_BRANCH26, true, 2), 0, None, &target(resolved(0x1_0100)), 0x1_0000, 4, &mut out).unwrap();
    assert_eq!(word(&out, 4), 0x9400_0000 | ((0x1_0100 - 0x1_0004) >> 2));
    assert_eq!(word(&out, 0), 0);
}

#[test]
fn a_pointer_gets_target_plus_addend() {
    let mut out = vec![0u8; 16];
    apply(rel(ARM64_RELOC_UNSIGNED, false, 3), 8, None, &target(resolved(0x1_0000_2000)), 0x1_0000_8000, 8, &mut out).unwrap();
    assert_eq!(u64::from_le_bytes(out[8..16].try_into().unwrap()), 0x1_0000_2008);
    assert_eq!(&out[..8], &[0; 8]);
}

#[test]
fn a_local_definition_with_a_got_slot_keeps_its_own_address() {
    let mut resolution = resolved(0x9000);
    resolution.symbol_address = 0x3000;
    resolution.got_address = Some(0x9000);
    let mut out = vec![0u8; 8];
    apply(rel(ARM64_RELOC_UNSIGNED, false, 3), 0, None, &target(resolution), 0x8000, 0, &mut out).unwrap();
    assert_eq!(u64::from_le_bytes(out[..8].try_into().unwrap()), 0x3000);

    // A GOT load uses the slot: page 0x9000 from page 0x1000 is eight pages on.
    let mut adrp = 0x9000_0000u32.to_le_bytes().to_vec();
    apply(rel(ARM64_RELOC_GOT_LOAD_PAGE21, true, 2), 0, None, &target(resolution), 0x1000, 0, &mut adrp).unwrap();
    assert_eq!(word(&adrp, 0), 0x9000_0000 | (8 >> 2) << 5);
    // Without a slot it fails and writes nothing.
    let mut no_slot = 0x9000_0000u32.to_le_bytes().to_vec();
    assert_eq!(
        apply(rel(ARM64_RELOC_GOT_LOAD_PAGE21, true, 2), 0, None, &target(resolved(0x9000)), 0x1000, 0, &mut no_slot),
        Err(RelocationError::NoGotSlot)
    );
    assert_eq!(word(&no_slot, 0), 0x9000_0000);
}

#[test]
fn a_subtractor_pair_is_minuend_minus_subtrahend_plus_the_stored_addend() {
    let mut out = 4u64.to_le_bytes().to_vec();
    apply(rel(ARM64_RELOC_UNSIGNED, false, 3), 0, Some(0x1000), &target(resolved(0x2000)), 0x8000, 0, &mut out).unwrap();
    assert_eq!(u64::from_le_bytes(out[..8].try_into().unwrap()), 0x1004);
}

#[test]
fn a_local_tlvp_load_becomes_an_add_of_the_descriptor() {
    // ldr x0, [x0, #0]
    let mut out = 0xf940_0000u32.to_le_bytes().to_vec();
    apply(rel(ARM64_RELOC_TLVP_LOAD_PAGEOFF12, false, 2), 0, None, &target(resolved(0x1_0000_4123)), 0x1_0000_0000, 0, &mut out).unwrap();
    assert_eq!(word(&out, 0), 0x9100_0000 | (0x123 << 10));
    // A non-LDR is refused.
    let mut nop = 0xd503_201fu32.to_le_bytes().to_vec();
    assert_eq!(
        apply(rel(ARM64_RELOC_TLVP_LOAD_PAGEOFF12, false, 2), 0, None, &target(resolved(0x4123)), 0, 0, &mut nop),
        Err(RelocationError::NotAnLdr)
    );
}

#[test]
fn a_descriptor_data_pointer_is_a_tls_offset() {
    let mut t = target(resolved(0x5010));
    t.tls_data_start = Some(0x5000);
    let mut out = vec![0u8; 8];
    apply(rel(ARM64_RELOC_UNSIGNED, false, 3), 0, None, &t, 0x8000, 0, &mut out).unwrap();
    assert_eq!(u64::from_le_bytes(out[..8].try_into().unwrap()), 0x10);
    t.tls_data_start = Some(0x6000);
    assert_eq!(apply(rel(ARM64_RELOC_UNSIGNED, false, 3), 0, None, &t, 0x8000, 0, &mut out), Err(RelocationError::BeforeTlsStorage));
}

#[test]
fn a_selector_send_branch_goes_to_its_stub() {
    let mut t = target(resolved(0x7000));
    t.objc_message = true;
    t.objc_stub_index = Some(2);
    let mut out = 0x9400_0000u32.to_le_bytes().to_vec();
    // Stubs start at 0x4000 and are 32 bytes each.
    apply(rel(ARM64_RELOC_BRANCH26, true, 2), 0, None, &t, 0x1000, 0, &mut out).unwrap();
    assert_eq!(word(&out, 0), 0x9400_0000 | ((0x4040 - 0x1000) >> 2));
    assert_eq!(
        apply(rel(ARM64_RELOC_BRANCH26, true, 2), 4, None, &t, 0x1000, 0, &mut out),
        Err(RelocationError::ObjcNotPlainBranch)
    );
    t.objc_stub_index = None;
    assert_eq!(apply(rel(ARM64_RELOC_BRANCH26, true, 2), 0, None, &t, 0x1000, 0, &mut out), Err(RelocationError::NoObjcStub));
}

#[test]
fn a_far_call_goes_through_its_island() {
    let mut islands = BTreeMap::new();
    islands.insert(1u32, 0x2000u64);
    let mut out = 0x9400_0000u32.to_le_bytes().to_vec();
    apply_relocation(
        rel(ARM64_RELOC_BRANCH26, true, 2),
        0,
        None,
        &target(resolved(0x4000_0000)),
        0,
        true,
        0,
        &[islands],
        1,
        0x1000,
        0,
        &mut out,
    )
    .unwrap();
    assert_eq!(word(&out, 0), 0x9400_0000 | (0x1000 >> 2));
    let mut unreachable = 0x9400_0000u32.to_le_bytes().to_vec();
    assert_eq!(
        apply(rel(ARM64_RELOC_BRANCH26, true, 2), 0, None, &target(resolved(0x4000_0000)), 0x1000, 0, &mut unreachable),
        Err(RelocationError::NoBranchIsland)
    );
}

#[test]
fn storage_must_lie_within_the_section() {
    let mut out = vec![0u8; 6];
    assert_eq!(
        apply(rel(ARM64_RELOC_UNSIGNED, false, 3), 0, None, &target(resolved(0x10)), 0, 0, &mut out),
        Err(RelocationError::OutsideSection)
    );
    assert_eq!(
        apply(rel(ARM64_RELOC_PAGE21, true, 2), 0, None, &target(resolved(0x10)), 0, 4, &mut out),
        Err(RelocationError::OutsideSection)
    );
    assert_eq!(out, vec![0u8; 6]);
    assert_eq!(relocation_storage_range(RelocationInfo { r_address: 0x10, ..rel(ARM64_RELOC_UNSIGNED, false, 3) }), Ok((0x10, 0x18)));
    assert_eq!(relocation_storage_range(rel(ARM64_RELOC_UNSIGNED, false, 64)), Err(RelocationError::InvalidWidth));
}
