use std::collections::BTreeMap;

use sha2::Digest;

use wild_macho::compact_unwind::{serialize_compact_unwind_info, CompactUnwindEntry, CompactUnwindError};
use wild_macho::load_commands::{write_uuid_command, LC_UUID, UUID_COMMAND_SIZE};
use wild_macho::signature::{code_signature_hashes, write_code_signature_hashes, write_uuid, SignatureError};
use wild_macho::unwind_writer::{
    merge_eh_frame_augmentations, write_compact_unwind_info, ResolvedEhFrameAugmentation,
    UnwindInfoError,
};

const BASE: u64 = 0x1_0000_0000;

fn row(function_address: u64, function_length: u32, personality: Option<u64>) -> CompactUnwindEntry {
    CompactUnwindEntry {
        function_address,
        function_length,
        encoding: 0x0400_0000,
        eh_frame_fde_identity: None,
        personality_address: personality,
        lsda_address: None,
    }
}

#[test]
fn unwind_info_sorts_rows_and_collects_personalities() {
    let entries = vec![row(BASE + 0x200, 0x10, None), row(BASE + 0x100, 0x20, Some(BASE + 0x4000))];
    let mut output = vec![0xaau8; 256];
    write_compact_unwind_info(&entries, &BTreeMap::new(), BASE, &mut output).unwrap();
    let sorted = [entries[1], entries[0]];
    let expected = serialize_compact_unwind_info(&sorted, &[BASE + 0x4000], BASE).unwrap();
    assert_eq!(&output[..expected.len()], &expected[..]);
    assert!(output[expected.len()..].iter().all(|&byte| byte == 0));
}

#[test]
fn unwind_info_rejects_overlaps_and_a_fourth_personality() {
    let overlapping = vec![row(BASE + 0x100, 0x20, None), row(BASE + 0x110, 0x20, None)];
    let mut output = vec![0u8; 256];
    assert_eq!(
        write_compact_unwind_info(&overlapping, &BTreeMap::new(), BASE, &mut output),
        Err(UnwindInfoError::Table(CompactUnwindError::OverlappingFunctions))
    );
    let four: Vec<_> = (0..4u64).map(|i| row(BASE + 0x100 * (i + 1), 0x10, Some(BASE + 0x4000 + i))).collect();
    assert_eq!(
        write_compact_unwind_info(&four, &BTreeMap::new(), BASE, &mut output),
        Err(UnwindInfoError::Table(CompactUnwindError::TooManyPersonalities))
    );
    let mut small = vec![0u8; 8];
    assert_eq!(
        write_compact_unwind_info(&[row(BASE, 4, None)].to_vec(), &BTreeMap::new(), BASE, &mut small),
        Err(UnwindInfoError::OutputTooSmall)
    );
    let wrapping = vec![row(u64::MAX - 1, 4, None)];
    assert_eq!(
        write_compact_unwind_info(&wrapping, &BTreeMap::new(), 0, &mut output),
        Err(UnwindInfoError::FunctionRangeOverflow)
    );
}

#[test]
fn unallocated_unwind_info_writes_nothing() {
    let mut output: Vec<u8> = Vec::new();
    assert_eq!(
        write_compact_unwind_info(&vec![row(BASE, 4, None)], &BTreeMap::new(), BASE, &mut output),
        Ok(())
    );
}

#[test]
fn fde_augmentations_fill_missing_personality_and_lsda() {
    let mut entries = vec![row(0x100, 4, None), row(0x200, 4, Some(0x9000))];
    let augmentations = [
        ResolvedEhFrameAugmentation { function: 0x100, personality: 0x8000, lsda: 0x7000 },
        ResolvedEhFrameAugmentation { function: 0x200, personality: 0x8000, lsda: 0x7100 },
    ];
    merge_eh_frame_augmentations(&mut entries, &augmentations).unwrap();
    assert_eq!(entries[0].personality_address, Some(0x8000));
    assert_eq!(entries[0].lsda_address, Some(0x7000));
    assert_eq!(entries[1].personality_address, Some(0x9000));
    assert_eq!(entries[1].lsda_address, Some(0x7100));
}

#[test]
fn conflicting_fde_augmentations_are_rejected() {
    let mut entries = vec![row(0x100, 4, None)];
    let augmentations = [
        ResolvedEhFrameAugmentation { function: 0x100, personality: 0x8000, lsda: 0x7000 },
        ResolvedEhFrameAugmentation { function: 0x100, personality: 0x8000, lsda: 0x7001 },
    ];
    assert_eq!(
        merge_eh_frame_augmentations(&mut entries, &augmentations),
        Err(UnwindInfoError::ConflictingAugmentation)
    );
    let mut none: Vec<CompactUnwindEntry> = Vec::new();
    assert_eq!(merge_eh_frame_augmentations(&mut none, &augmentations), Ok(()));
}

fn image_with_uuid_command() -> Vec<u8> {
    let mut image = vec![0u8; 64];
    // An unrelated 16-byte command, then LC_UUID.
    image[0..4].copy_from_slice(&0x19u32.to_le_bytes());
    image[4..8].copy_from_slice(&16u32.to_le_bytes());
    write_uuid_command(&mut image[16..16 + UUID_COMMAND_SIZE]);
    image[50] = 7;
    image
}

#[test]
fn uuid_is_a_version_3_hash_of_the_image() {
    let mut image = image_with_uuid_command();
    let hash = blake3::hash(&image);
    write_uuid(&mut image, 0, 40).unwrap();
    let uuid = &image[24..40];
    let mut expected = hash.as_bytes()[..16].to_vec();
    expected[6] = (expected[6] & 0x0f) | 0x30;
    expected[8] = (expected[8] & 0x3f) | 0x80;
    assert_eq!(uuid, &expected[..]);
    assert_eq!(uuid[6] >> 4, 3);
    assert_eq!(uuid[8] >> 6, 2);
    assert_eq!(u32::from_le_bytes(image[16..20].try_into().unwrap()), LC_UUID);
}

#[test]
fn uuid_needs_an_lc_uuid_command() {
    let mut image = image_with_uuid_command();
    assert_eq!(write_uuid(&mut image, 0, 16), Err(SignatureError::MissingUuid));
    assert_eq!(write_uuid(&mut image, 0, 12), Err(SignatureError::InvalidLoadCommandSize));
    assert_eq!(write_uuid(&mut image, 60, 16), Err(SignatureError::InvalidAllocation));
    let mut zero_sized = vec![0u8; 16];
    zero_sized[0] = 1;
    assert_eq!(write_uuid(&mut zero_sized, 0, 16), Err(SignatureError::InvalidLoadCommandSize));
}

#[test]
fn code_signature_hashes_cover_every_page() {
    let data: Vec<u8> = (0..5000u32).map(|i| i as u8).collect();
    let hashes = code_signature_hashes(&data);
    assert_eq!(hashes.len(), 64);
    assert_eq!(&hashes[..32], sha2::Sha256::digest(&data[..4096]).as_slice());
    assert_eq!(&hashes[32..], sha2::Sha256::digest(&data[4096..]).as_slice());
    assert!(code_signature_hashes(&[]).is_empty());
}

#[test]
fn code_signature_slots_receive_the_page_hashes() {
    let mut image = vec![1u8; 100];
    image.extend_from_slice(&[0u8; 40]);
    write_code_signature_hashes(&mut image, 100, 40, 8).unwrap();
    assert_eq!(&image[108..140], sha2::Sha256::digest(&[1u8; 100]).as_slice());
    assert!(image[100..108].iter().all(|&byte| byte == 0));
    assert_eq!(
        write_code_signature_hashes(&mut image, 100, 40, 0),
        Err(SignatureError::HashSlotMismatch)
    );
    assert_eq!(
        write_code_signature_hashes(&mut image, 100, 50, 8),
        Err(SignatureError::InvalidAllocation)
    );
}
