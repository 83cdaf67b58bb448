use std::collections::BTreeMap;
use wild_macho::chained_fixups::{ChainedFixup, ChainedFixupError, ChainedFixupKind};
use wild_macho::fixup_collection::{
    chained_fixups, data_bind_fixups, direct_dynamic_data_bind, insert_data_bind,
    is_local_got_relocation, local_rebase_fixup, rebase_fixups, FixupCollectionError,
    SectionRange,
};
use wild_macho::image::{ImageError, OutputSegment};
use wild_macho::relocations::{
    NormalizedRelocation, RelocationInfo, ARM64_RELOC_BRANCH26, ARM64_RELOC_GOT_LOAD_PAGE21,
    ARM64_RELOC_POINTER_TO_GOT, ARM64_RELOC_UNSIGNED,
};
use wild_macho::segment::SegmentName;
use wild_macho::symbols::{ImportedSymbol, ImportedSymbolBinding};

const BASE: u64 = 0x1_0000_0000;

fn segments() -> Vec<OutputSegment> {
    vec![
        OutputSegment { name: SegmentName::text(), mem_offset: BASE, mem_size: 0x4000, file_offset: 0, file_size: 0x4000 },
        OutputSegment {
            name: SegmentName::data_const(),
            mem_offset: BASE + 0x4000,
            mem_size: 0x4000,
            file_offset: 0x4000,
            file_size: 0x4000,
        },
        OutputSegment {
            name: SegmentName::data(),
            mem_offset: BASE + 0x8000,
            mem_size: 0x4000,
            file_offset: 0x8000,
            file_size: 0x4000,
        },
    ]
}

fn pointer(r_address: u32, r_extern: bool) -> NormalizedRelocation {
    NormalizedRelocation {
        info: RelocationInfo {
            r_address,
            r_symbolnum: 3,
            r_pcrel: false,
            r_length: 3,
            r_extern,
            r_type: ARM64_RELOC_UNSIGNED,
        },
        addend: 0,
        subtractor: None,
    }
}

#[test]
fn local_data_pointers_into_the_image_become_rebases() {
    let segments = segments();
    let mut output = vec![0u8; 0xc000];
    output[0x8010..0x8018].copy_from_slice(&(BASE + 0x100).to_le_bytes());
    output[0x8018..0x8020].copy_from_slice(&42u64.to_le_bytes());
    let relocation = pointer(0x10, true);
    let section = BASE + 0x8000;
    assert_eq!(
        local_rebase_fixup(&segments, &relocation, true, Some(0x10), false, false, section, &output),
        Ok(Some(ChainedFixup { address: BASE + 0x8010, kind: ChainedFixupKind::Rebase { target: BASE + 0x100 } }))
    );
    // A plain integer stays as written.
    assert_eq!(
        local_rebase_fixup(&segments, &relocation, true, Some(0x18), false, false, section, &output),
        Ok(None)
    );
    // Imports are bound, descriptors' TLS offsets are not slid, and dead or pc-relative storage
    // is skipped.
    assert_eq!(local_rebase_fixup(&segments, &relocation, true, Some(0x10), true, false, section, &output), Ok(None));
    assert_eq!(local_rebase_fixup(&segments, &relocation, true, Some(0x10), false, true, section, &output), Ok(None));
    assert_eq!(local_rebase_fixup(&segments, &relocation, false, Some(0x10), false, false, section, &output), Ok(None));
    assert_eq!(local_rebase_fixup(&segments, &relocation, true, None, false, false, section, &output), Ok(None));
    let mut pcrel = relocation;
    pcrel.info.r_pcrel = true;
    assert_eq!(local_rebase_fixup(&segments, &pcrel, true, Some(0x10), false, false, section, &output), Ok(None));
    // A local pointer outside every segment cannot be placed.
    assert_eq!(
        local_rebase_fixup(&segments, &pointer(0, false), true, Some(0x10), true, false, BASE + 0x20_0000, &output),
        Err(FixupCollectionError::Image(ImageError::OutsideOutputSegments))
    );
}

#[test]
fn data_pointers_to_imports_become_binds_with_their_addend() {
    let mut input = vec![0u8; 0x20];
    input[8..16].copy_from_slice(&0x10u64.to_le_bytes());
    let relocation = pointer(8, true);
    let section = BASE + 0x8000;
    assert_eq!(
        direct_dynamic_data_bind(&relocation, true, true, &[5, 7], 7, &input, Some(0x40), section),
        Ok(Some(ChainedFixup {
            address: BASE + 0x8040,
            kind: ChainedFixupKind::Bind { import_index: 1, addend: 0x10 },
        }))
    );
    assert_eq!(direct_dynamic_data_bind(&relocation, true, false, &[5, 7], 7, &input, Some(0x40), section), Ok(None));
    assert_eq!(
        direct_dynamic_data_bind(&relocation, true, true, &[5, 7], 9, &input, Some(0x40), section),
        Err(FixupCollectionError::MissingImport)
    );
    assert_eq!(
        direct_dynamic_data_bind(&relocation, true, true, &[7], 7, &input, None, section),
        Err(FixupCollectionError::NoOutputOffset)
    );
    assert_eq!(
        direct_dynamic_data_bind(&pointer(0x1c, true), true, true, &[7], 7, &input, Some(0), section),
        Err(FixupCollectionError::FieldOutsideSection)
    );
    input[8..16].copy_from_slice(&0x100u64.to_le_bytes());
    assert_eq!(
        direct_dynamic_data_bind(&relocation, true, true, &[7], 7, &input, Some(0x40), section),
        Err(FixupCollectionError::AddendTooLarge)
    );
}

#[test]
fn data_binds_and_rebases_are_recorded_once_by_address() {
    let mut binds = BTreeMap::new();
    let bind = |address: u64, import_index: usize, addend: u8| ChainedFixup {
        address,
        kind: ChainedFixupKind::Bind { import_index, addend },
    };
    insert_data_bind(&mut binds, bind(0x30, 1, 0)).unwrap();
    insert_data_bind(&mut binds, bind(0x10, 0, 8)).unwrap();
    insert_data_bind(&mut binds, bind(0x30, 1, 0)).unwrap();
    assert_eq!(insert_data_bind(&mut binds, bind(0x30, 2, 0)), Err(FixupCollectionError::ConflictingBind));
    assert_eq!(binds.len(), 2);
    assert_eq!(data_bind_fixups(&binds), vec![bind(0x10, 0, 8), bind(0x30, 1, 0)]);

    let mut rebases = BTreeMap::new();
    rebases.insert(0x28u64, 0x1000u64);
    rebases.insert(0x08u64, 0x2000u64);
    assert_eq!(
        rebase_fixups(&rebases),
        vec![
            ChainedFixup { address: 0x08, kind: ChainedFixupKind::Rebase { target: 0x2000 } },
            ChainedFixup { address: 0x28, kind: ChainedFixupKind::Rebase { target: 0x1000 } },
        ]
    );

    let got_load = RelocationInfo { r_address: 0, r_symbolnum: 1, r_pcrel: true, r_length: 2, r_extern: true, r_type: ARM64_RELOC_GOT_LOAD_PAGE21 };
    assert!(is_local_got_relocation(&got_load));
    assert!(is_local_got_relocation(&RelocationInfo { r_type: ARM64_RELOC_POINTER_TO_GOT, ..got_load }));
    assert!(!is_local_got_relocation(&RelocationInfo { r_type: ARM64_RELOC_BRANCH26, ..got_load }));
    assert!(!is_local_got_relocation(&RelocationInfo { r_extern: false, ..got_load }));
}

fn import(binding: ImportedSymbolBinding) -> ImportedSymbol {
    ImportedSymbol { install_name: b"/usr/lib/libSystem.B.dylib".to_vec(), binding, weak_import: false }
}

#[test]
fn fixups_are_chained_per_segment() {
    let segments = segments();
    let got = SectionRange { mem_offset: BASE + 0x4000, mem_size: 0x10 };
    let tlvp = SectionRange { mem_offset: BASE + 0x8000, mem_size: 8 };
    let imports = [
        import(ImportedSymbolBinding::Got { got_address: BASE + 0x4008, plt_address: None }),
        import(ImportedSymbolBinding::Tlvp { tlvp_address: BASE + 0x8000 }),
    ];
    let rebase = ChainedFixup { address: BASE + 0x8010, kind: ChainedFixupKind::Rebase { target: BASE + 0x100 } };
    let chains = chained_fixups(&segments, got, tlvp, &imports, &[rebase]).unwrap();
    assert_eq!(chains.segments.len(), 2);

    let data_const = &chains.segments[0];
    assert_eq!(data_const.segment_index, 1);
    assert_eq!(data_const.segment_start, BASE + 0x4000);
    assert_eq!(
        data_const.fixups,
        vec![ChainedFixup { address: BASE + 0x4008, kind: ChainedFixupKind::Bind { import_index: 0, addend: 0 } }]
    );
    assert_eq!(data_const.page_starts, vec![8]);
    assert_eq!(data_const.next_by_fixup, vec![0]);

    let data = &chains.segments[1];
    assert_eq!(data.segment_index, 2);
    assert_eq!(
        data.fixups,
        vec![
            ChainedFixup { address: BASE + 0x8000, kind: ChainedFixupKind::Bind { import_index: 1, addend: 0 } },
            rebase,
        ]
    );
    assert_eq!(data.page_starts, vec![0]);
    assert_eq!(data.next_by_fixup, vec![4, 0]);
}

#[test]
fn chained_fixups_reject_misplaced_slots() {
    let segments = segments();
    let got = SectionRange { mem_offset: BASE + 0x4000, mem_size: 0x10 };
    let tlvp = SectionRange { mem_offset: BASE + 0x8000, mem_size: 8 };
    let outside_got = [import(ImportedSymbolBinding::Got { got_address: BASE + 0x4010, plt_address: None })];
    assert_eq!(chained_fixups(&segments, got, tlvp, &outside_got, &[]).unwrap_err(), FixupCollectionError::BindOutsideGot);
    let outside_tlvp = [import(ImportedSymbolBinding::Tlvp { tlvp_address: BASE + 0x4000 })];
    assert_eq!(chained_fixups(&segments, got, tlvp, &outside_tlvp, &[]).unwrap_err(), FixupCollectionError::BindOutsideTlvp);
    let stray = ChainedFixup { address: BASE + 0x20_0000, kind: ChainedFixupKind::Rebase { target: BASE } };
    assert_eq!(
        chained_fixups(&segments, got, tlvp, &[], &[stray]).unwrap_err(),
        FixupCollectionError::Image(ImageError::OutsideOutputSegments)
    );
    let twice = ChainedFixup { address: BASE + 0x8010, kind: ChainedFixupKind::Rebase { target: BASE } };
    assert_eq!(
        chained_fixups(&segments, got, tlvp, &[], &[twice, twice]).unwrap_err(),
        FixupCollectionError::Chain(ChainedFixupError::DuplicateAddress)
    );
    let misaligned = ChainedFixup { address: BASE + 0x8004, kind: ChainedFixupKind::Rebase { target: BASE } };
    assert_eq!(
        chained_fixups(&segments, got, tlvp, &[], &[misaligned]).unwrap_err(),
        FixupCollectionError::Chain(ChainedFixupError::Misaligned)
    );
}
