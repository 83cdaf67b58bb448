use wild_macho::chained_fixups::{plan_segment_chained_fixups, ChainedFixup, ChainedFixupKind};
use wild_macho::fixup_table::{write_chained_fixup_table, ChainedImport, FixupTableError};

const BASE: u64 = 0x1_0000_0000;

fn u32_at(bytes: &[u8], offset: usize) -> u32 {
    u32::from_le_bytes(bytes[offset..offset + 4].try_into().unwrap())
}

fn u16_at(bytes: &[u8], offset: usize) -> u16 {
    u16::from_le_bytes(bytes[offset..offset + 2].try_into().unwrap())
}

#[test]
fn the_fixup_table_holds_header_starts_imports_and_names() {
    let plan = plan_segment_chained_fixups(
        1,
        BASE + 0x4000,
        0x4000,
        vec![ChainedFixup { address: BASE + 0x4008, kind: ChainedFixupKind::Bind { import_index: 0, addend: 0 } }],
    )
    .unwrap();
    let imports = [ChainedImport { name: b"_malloc".to_vec(), library_ordinal: 1, weak_import: false }];
    let mut table = vec![0xaau8; 96];
    write_chained_fixup_table(3, true, &[plan], &imports, BASE, &mut table).unwrap();

    // Header: version, starts, imports and symbols offsets, import count and formats.
    let header: Vec<u32> = (0..7).map(|i| u32_at(&table, 4 * i)).collect();
    assert_eq!(header, vec![0, 32, 76, 80, 1, 1, 0]);
    assert_eq!(&table[28..32], &[0; 4]);
    // Four segments (with __PAGEZERO); only __DATA_CONST, in slot three, has a record.
    let starts: Vec<u32> = (0..5).map(|i| u32_at(&table, 32 + 4 * i)).collect();
    assert_eq!(starts, vec![4, 0, 0, 20, 0]);
    assert_eq!(u32_at(&table, 52), 24);
    assert_eq!(u16_at(&table, 56), 0x4000);
    assert_eq!(u16_at(&table, 58), 6);
    assert_eq!(u64::from_le_bytes(table[60..68].try_into().unwrap()), 0x4000);
    assert_eq!(u32_at(&table, 68), 0);
    assert_eq!(u16_at(&table, 72), 1);
    assert_eq!(u16_at(&table, 74), 8);
    // The import names libSystem's ordinal and the first name.
    assert_eq!(u32_at(&table, 76), 1);
    assert_eq!(&table[80..88], b"_malloc\0");
    assert_eq!(&table[88..], &[0; 8]);
}

#[test]
fn the_fixup_table_must_fit_its_allocation() {
    let imports = [ChainedImport { name: b"_free".to_vec(), library_ordinal: 2, weak_import: true }];
    let mut small = vec![0u8; 8];
    assert_eq!(
        write_chained_fixup_table(1, false, &[], &imports, BASE, &mut small),
        Err(FixupTableError::TableTooSmall)
    );
    let mut table = vec![0u8; 128];
    assert_eq!(
        write_chained_fixup_table(6, true, &[], &imports, BASE, &mut table),
        Err(FixupTableError::TooManySegments)
    );
    // A weak import sets bit eight.
    write_chained_fixup_table(1, false, &[], &imports, BASE, &mut table).unwrap();
    let imports_offset = u32_at(&table, 8) as usize;
    assert_eq!(u32_at(&table, imports_offset), 2 | 0x100);
}

#[test]
fn the_lowest_bad_fixup_address_decides_the_error() {
    let rebase = ChainedFixupKind::Rebase { target: 0 };
    let start = 0x1_0000_4000u64;
    // The outside fixup lies below the misaligned one: it is found first.
    let outside_first = plan_segment_chained_fixups(
        0,
        start,
        0x100,
        vec![
            ChainedFixup { address: start + 0x14, kind: rebase },
            ChainedFixup { address: start - 0x8, kind: rebase },
        ],
    );
    assert_eq!(outside_first.unwrap_err(), wild_macho::chained_fixups::ChainedFixupError::OutsideSegment);
    // A shared address below a misaligned one gives the duplicate error.
    let duplicate_first = plan_segment_chained_fixups(
        0,
        start,
        0x100,
        vec![
            ChainedFixup { address: start + 0x44, kind: rebase },
            ChainedFixup { address: start + 0x8, kind: rebase },
            ChainedFixup { address: start + 0x8, kind: rebase },
        ],
    );
    assert_eq!(duplicate_first.unwrap_err(), wild_macho::chained_fixups::ChainedFixupError::DuplicateAddress);
    // A misaligned address below a shared one gives the alignment error.
    let misaligned_first = plan_segment_chained_fixups(
        0,
        start,
        0x100,
        vec![
            ChainedFixup { address: start + 0x48, kind: rebase },
            ChainedFixup { address: start + 0x48, kind: rebase },
            ChainedFixup { address: start + 0x4, kind: rebase },
        ],
    );
    assert_eq!(misaligned_first.unwrap_err(), wild_macho::chained_fixups::ChainedFixupError::Misaligned);
}
