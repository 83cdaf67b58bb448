use std::collections::BTreeMap;

use wild_macho::chained_fixups::{ChainedFixup, ChainedFixupError, ChainedFixupKind};
use wild_macho::compact_unwind::EhFrameFdeIdentity;
use wild_macho::eh_frame::{
    eh_frame_augmentations, eh_frame_capacity, eh_frame_sleb, eh_frame_uleb, parse_eh_frame_cie,
    parse_eh_frame_records, write_eh_frame_pcrel_i32, write_eh_frame_pcrel_i64,
    write_eh_frame_u32, CapacityError, EhFrameAugmentation, EhFrameError, EhFrameFde,
    EhFrameWriteError,
};
use wild_macho::eh_frame_writer::{
    write_eh_frame, EhFrameFunctionTarget, EhFrameOutputError, EhFramePersonalityGot,
    EhFrameSectionInput,
};

const MACHO_START_MEM_ADDRESS: u64 = 0x1_0000_0000;

fn zplr_section() -> Vec<u8> {
    let mut data = vec![
        24, 0, 0, 0, // CIE length
        0, 0, 0, 0, // CIE marker
        1, b'z', b'P', b'L', b'R', 0, 1, 0x78, 30, 7, 0x9b,
        0, 0, 0, 0, // personality pointer relocation storage
        0x10, 0x10, 0x0c, 0x1f, 0,
        29, 0, 0, 0, // FDE length
        32, 0, 0, 0, // CIE pointer: (FDE + 4) - CIE
    ];
    data.extend_from_slice(&[0; 16]); // function and range
    data.push(8); // FDE augmentation size
    data.extend_from_slice(&[0; 8]); // LSDA relocation storage
    data.extend_from_slice(&[0; 4]); // final zero-length record
    data
}

fn zr_section() -> Vec<u8> {
    let mut data = vec![
        13, 0, 0, 0, // CIE length
        0, 0, 0, 0, // CIE marker
        1, b'z', b'R', 0, 1, 0x78, 30, 1, 0x10,
        21, 0, 0, 0, // FDE length
        21, 0, 0, 0, // CIE pointer: (FDE + 4) - CIE
    ];
    data.extend_from_slice(&[0; 16]); // function and range
    data.push(0); // FDE augmentation size
    data.extend_from_slice(&[0; 4]); // final zero-length record
    data
}

#[test]
fn eh_frame_zplr_reports_relocation_storage() {
    let data = zplr_section();

    assert_eq!(
        eh_frame_augmentations(&data).unwrap(),
        vec![EhFrameAugmentation {
            function_relocation_offset: 36,
            personality_relocation_offset: 19,
            lsda_relocation_offset: 53,
        }]
    );

    let records = parse_eh_frame_records(&data).unwrap();
    assert_eq!(records.cies.len(), 1);
    assert_eq!(records.fdes.len(), 1);
    assert_eq!(
        records.fdes[0],
        EhFrameFde {
            record_range: 28..61,
            cie_record_start: 0,
            function_relocation_offset: 36,
            lsda_relocation_offset: Some(53),
        }
    );
}

#[test]
fn eh_frame_zr_retains_an_fde_without_personality_or_lsda() {
    let data = zr_section();

    let records = parse_eh_frame_records(&data).unwrap();
    assert_eq!(records.cies[&0].personality_relocation_offset, None);
    assert_eq!(records.fdes.len(), 1);
    assert_eq!(records.fdes[0].lsda_relocation_offset, None);
    assert!(eh_frame_augmentations(&data).unwrap().is_empty());
}

#[test]
fn eh_frame_pointer_fields_are_rebased_against_their_final_locations() {
    let section_address = MACHO_START_MEM_ADDRESS + 0x4000;
    let mut data = [0u8; 24];

    write_eh_frame_u32(&mut data, 4, 0x24, "CIE pointer").unwrap();
    write_eh_frame_pcrel_i64(&mut data, 8, section_address, section_address + 0x180, "function")
        .unwrap();
    write_eh_frame_pcrel_i64(&mut data, 16, section_address, section_address + 0x2c0, "LSDA")
        .unwrap();

    assert_eq!(u32::from_le_bytes(data[4..8].try_into().unwrap()), 0x24);
    assert_eq!(i64::from_le_bytes(data[8..16].try_into().unwrap()), 0x178);
    assert_eq!(i64::from_le_bytes(data[16..24].try_into().unwrap()), 0x2b0);
}

#[test]
fn pcrel_i32_encodes_backward_distances_and_rejects_far_targets() {
    let mut data = [0u8; 8];
    write_eh_frame_pcrel_i32(&mut data, 4, 0x1000, 0xff0, "personality").unwrap();
    assert_eq!(i32::from_le_bytes(data[4..8].try_into().unwrap()), -0x14);
    assert_eq!(
        write_eh_frame_pcrel_i32(&mut data, 0, 0, 0x1_0000_0000, "personality"),
        Err(EhFrameWriteError::OutOfRange)
    );
    assert_eq!(
        write_eh_frame_u32(&mut data, 6, 1, "CIE pointer"),
        Err(EhFrameWriteError::Truncated)
    );
}

#[test]
fn leb128_values_decode_with_their_sign() {
    let data = [0xe5, 0x8e, 0x26, 0x7f];
    let mut offset = 0;
    assert_eq!(eh_frame_uleb(&data, 4, &mut offset), Ok(624485));
    assert_eq!(offset, 3);
    let mut offset = 3;
    assert_eq!(eh_frame_sleb(&data, 4, &mut offset), Ok(-1));
    assert_eq!(offset, 4);
    let mut offset = 0;
    assert_eq!(eh_frame_uleb(&data, 2, &mut offset), Err(EhFrameError::TruncatedUleb));
}

#[test]
fn unsupported_cie_augmentation_is_rejected() {
    let mut data = zr_section();
    data[10] = b'S';
    assert_eq!(parse_eh_frame_cie(&data, 0, 17), Err(EhFrameError::UnsupportedAugmentation));
    assert!(matches!(
        parse_eh_frame_records(&data),
        Err(EhFrameError::UnsupportedAugmentation)
    ));
}

#[test]
fn nonzero_bytes_after_the_terminator_are_rejected() {
    let mut data = zr_section();
    data.push(1);
    assert!(matches!(parse_eh_frame_records(&data), Err(EhFrameError::NonzeroAfterTerminator)));
}

#[test]
fn eh_frame_capacity_reserves_a_terminator_and_alignment() {
    assert_eq!(eh_frame_capacity(0), Ok(8));
    assert_eq!(eh_frame_capacity(61), Ok(72));
    assert_eq!(eh_frame_capacity(usize::MAX - 2), Err(CapacityError::InputTooLarge));
}

fn identity(offset: u64) -> EhFrameFdeIdentity {
    EhFrameFdeIdentity { file_id: 1, function_section_index: 1, function_input_offset: offset }
}

#[test]
fn rebuilt_eh_frame_keeps_live_fdes_and_rewrites_their_fields() {
    let section_address = MACHO_START_MEM_ADDRESS + 0x8000;
    let got_address = MACHO_START_MEM_ADDRESS + 0xc000;
    let function = MACHO_START_MEM_ADDRESS + 0x1000;
    let lsda = MACHO_START_MEM_ADDRESS + 0x9000;
    let input = EhFrameSectionInput {
        data: zplr_section(),
        functions: BTreeMap::from([(36, EhFrameFunctionTarget { address: function, identity: identity(0x40) })]),
        lsdas: BTreeMap::from([(53, lsda)]),
        personalities: BTreeMap::from([(
            19,
            EhFramePersonalityGot {
                got_address,
                local_got_rebase: Some(ChainedFixup {
                    address: got_address,
                    kind: ChainedFixupKind::Rebase { target: MACHO_START_MEM_ADDRESS + 0x1200 },
                }),
            },
        )]),
    };
    let mut output = vec![0xaa; 72];
    let plan = write_eh_frame(&[input], section_address, &mut output).unwrap();

    let data = zplr_section();
    // The CIE is copied first, then its FDE; the terminator follows and the rest is zeroed.
    assert_eq!(&output[0..19], &data[0..19]);
    let personality = i32::from_le_bytes(output[19..23].try_into().unwrap());
    assert_eq!(section_address as i64 + 19 + personality as i64, got_address as i64);
    assert_eq!(u32::from_le_bytes(output[32..36].try_into().unwrap()), 32);
    let function_field = i64::from_le_bytes(output[36..44].try_into().unwrap());
    assert_eq!(section_address as i64 + 36 + function_field, function as i64);
    let lsda_field = i64::from_le_bytes(output[53..61].try_into().unwrap());
    assert_eq!(section_address as i64 + 53 + lsda_field, lsda as i64);
    assert!(output[61..].iter().all(|&byte| byte == 0));

    assert_eq!(plan.fde_offsets, BTreeMap::from([(identity(0x40).key(), 28)]));
    assert_eq!(
        plan.personality_got_rebases,
        BTreeMap::from([(got_address, MACHO_START_MEM_ADDRESS + 0x1200)])
    );
}

#[test]
fn rebuilt_eh_frame_drops_dead_fdes_and_their_cies() {
    let input = EhFrameSectionInput {
        data: zr_section(),
        functions: BTreeMap::new(),
        lsdas: BTreeMap::new(),
        personalities: BTreeMap::new(),
    };
    let mut output = vec![0xaa; 8];
    let plan = write_eh_frame(&[input], MACHO_START_MEM_ADDRESS, &mut output).unwrap();
    assert_eq!(output, vec![0; 8]);
    assert!(plan.fde_offsets.is_empty());
}

#[test]
fn rebuilt_eh_frame_groups_fdes_by_cie_and_repoints_them() {
    // Two FDEs of one section, both live: they share the copied CIE.
    let mut data = zr_section();
    data.truncate(data.len() - 4);
    let second_fde = data.len();
    data.extend_from_slice(&[21, 0, 0, 0]);
    data.extend_from_slice(&((second_fde + 4) as u32).to_le_bytes());
    data.extend_from_slice(&[0; 16]);
    data.push(0);
    data.extend_from_slice(&[0; 4]);
    let input = EhFrameSectionInput {
        data,
        functions: BTreeMap::from([
            (25, EhFrameFunctionTarget { address: 0x2000, identity: identity(0) }),
            (second_fde + 8, EhFrameFunctionTarget { address: 0x3000, identity: identity(8) }),
        ]),
        lsdas: BTreeMap::new(),
        personalities: BTreeMap::new(),
    };
    let mut output = vec![0; 128];
    let plan = write_eh_frame(&[input], 0x1000, &mut output).unwrap();
    assert_eq!(plan.fde_offsets.len(), 2);
    assert_eq!(plan.fde_offsets[&identity(0).key()], 17);
    assert_eq!(plan.fde_offsets[&identity(8).key()], 42);
    assert_eq!(u32::from_le_bytes(output[21..25].try_into().unwrap()), 21);
    assert_eq!(u32::from_le_bytes(output[46..50].try_into().unwrap()), 46);
}

#[test]
fn rebuilt_eh_frame_rejects_ambiguous_fdes_and_small_outputs() {
    let section = |offset| EhFrameSectionInput {
        data: zr_section(),
        functions: BTreeMap::from([(25, EhFrameFunctionTarget { address: 0x2000, identity: identity(offset) })]),
        lsdas: BTreeMap::new(),
        personalities: BTreeMap::new(),
    };
    let mut output = vec![0; 128];
    assert!(matches!(
        write_eh_frame(&[section(0), section(0)], 0x1000, &mut output),
        Err(EhFrameOutputError::AmbiguousFde)
    ));
    let mut small = vec![0; 16];
    assert!(matches!(
        write_eh_frame(&[section(0)], 0x1000, &mut small),
        Err(EhFrameOutputError::OutputTooSmall)
    ));
    let mut missing_lsda = vec![0; 128];
    let zplr = EhFrameSectionInput {
        data: zplr_section(),
        functions: BTreeMap::from([(36, EhFrameFunctionTarget { address: 0x2000, identity: identity(0) })]),
        lsdas: BTreeMap::new(),
        personalities: BTreeMap::from([(19, EhFramePersonalityGot { got_address: 0x3000, local_got_rebase: None })]),
    };
    assert!(matches!(
        write_eh_frame(&[zplr], 0x1000, &mut missing_lsda),
        Err(EhFrameOutputError::MissingLsda)
    ));
}

#[test]
fn unallocated_eh_frame_writes_nothing() {
    let mut output: Vec<u8> = Vec::new();
    let plan = write_eh_frame(&[], 0x1000, &mut output).unwrap();
    assert!(plan.fde_offsets.is_empty());
    assert!(plan.personality_got_rebases.is_empty());
}

#[test]
fn eh_frame_personality_rebase_conflicts_are_reported() {
    let got = 0x9000;
    let rebase = |target| EhFramePersonalityGot {
        got_address: got,
        local_got_rebase: Some(ChainedFixup { address: got, kind: ChainedFixupKind::Rebase { target } }),
    };
    let section = |target: u64| EhFrameSectionInput {
        data: zplr_section(),
        functions: BTreeMap::from([(36, EhFrameFunctionTarget { address: 0x2000, identity: identity(target) })]),
        lsdas: BTreeMap::from([(53, 0x2500)]),
        personalities: BTreeMap::from([(19, rebase(target))]),
    };
    let mut output = vec![0; 256];
    assert!(matches!(
        write_eh_frame(&[section(0x100), section(0x104)], 0x1000, &mut output),
        Err(EhFrameOutputError::Rebase(ChainedFixupError::ConflictingRebase))
    ));
}
