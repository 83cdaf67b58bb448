use wild_macho::options::{check_install_name, dylib_install_name, MachOOutputKind, OptionsError};
use wild_macho::byte_order::{byte_order, ByteOrder};
use wild_macho::eh_frame::{eh_frame_skip_encoded_value, EhFrameError};
use wild_macho::export_list::glob_matches;
use wild_macho::image::{file_offset_for_address, segment_for_address, ImageError, OutputSegment};
use wild_macho::load_commands::parse_decimal;
use wild_macho::segment::SegmentName;

#[test]
fn glob_patterns_match_stars_and_single_bytes() {
    assert!(glob_matches(b"_foo*", b"_foobar"));
    assert!(glob_matches(b"_f?o", b"_fao"));
    assert!(!glob_matches(b"_f?o", b"_fo"));
    assert!(!glob_matches(b"_foo", b"_foobar"));
    assert!(glob_matches(b"*", b""));
}

#[test]
fn addresses_map_to_segments_and_file_offsets() {
    let segments = [
        OutputSegment { name: SegmentName::text(), mem_offset: 0x1000, mem_size: 0x1000, file_offset: 0, file_size: 0x1000 },
        OutputSegment { name: SegmentName::data(), mem_offset: 0x2000, mem_size: 0x2000, file_offset: 0x1000, file_size: 0x800 },
    ];
    assert_eq!(segment_for_address(&segments, 0x2010, 8), Ok(1));
    assert_eq!(segment_for_address(&segments, 0x0ff8, 8), Err(ImageError::OutsideOutputSegments));
    assert_eq!(segment_for_address(&segments, u64::MAX, 8), Err(ImageError::AddressOverflow));
    assert_eq!(file_offset_for_address(&segments, 0x2010, 8), Ok(0x1010));
    // Past the file-backed part of __DATA lies zero-fill.
    assert_eq!(file_offset_for_address(&segments, 0x2900, 8), Err(ImageError::ZeroFill));
}

#[test]
fn decimal_numbers_parse_within_their_bound() {
    assert_eq!(parse_decimal(b"42", 255), Some(42));
    assert_eq!(parse_decimal(b"+7", 255), Some(7));
    assert_eq!(parse_decimal(b"256", 255), None);
    assert_eq!(parse_decimal(b"", 255), None);
    assert_eq!(parse_decimal(b"1a", 255), None);
}

#[test]
fn byte_strings_order_bytewise_with_prefixes_first() {
    assert_eq!(byte_order(b"abc", b"abd"), ByteOrder::Before);
    assert_eq!(byte_order(b"ab", b"abc"), ByteOrder::Before);
    assert_eq!(byte_order(b"b", b"abc"), ByteOrder::After);
    assert_eq!(byte_order(b"abc", b"abc"), ByteOrder::Same);
    assert_eq!(byte_order(b"", b""), ByteOrder::Same);
}

#[test]
fn encoded_pointers_are_skipped_by_their_form() {
    let data = [0u8, 1, 2, 3, 4, 5, 6, 7, 0x80, 0x01, 0x7f];
    // A 32-bit PC-relative signed pointer.
    assert_eq!(eh_frame_skip_encoded_value(&data, data.len(), 0, 0x1b), Ok(4));
    // An absolute 64-bit pointer.
    assert_eq!(eh_frame_skip_encoded_value(&data, data.len(), 0, 0x00), Ok(8));
    // ULEB128 and SLEB128.
    assert_eq!(eh_frame_skip_encoded_value(&data, data.len(), 8, 0x01), Ok(10));
    assert_eq!(eh_frame_skip_encoded_value(&data, data.len(), 10, 0x09), Ok(11));
    assert_eq!(eh_frame_skip_encoded_value(&data, 6, 4, 0x00), Err(EhFrameError::TruncatedEncodedValue));
    assert_eq!(eh_frame_skip_encoded_value(&data, data.len(), 0, 0x05), Err(EhFrameError::UnsupportedPointerEncoding));
}

#[test]
fn align_u32_pads_with_zeros_to_the_alignment() {
    let mut data = vec![1u8, 2, 3, 4, 5];
    wild_macho::bytes::align_u32(&mut data, 4);
    assert_eq!(data, vec![1, 2, 3, 4, 5, 0, 0, 0]);
    wild_macho::bytes::align_u32(&mut data, 4);
    assert_eq!(data.len(), 8);
}

#[test]
fn install_name_needs_a_dylib() {
    assert_eq!(check_install_name(Some(b"/usr/lib/libx.dylib"), MachOOutputKind::Executable), Err(OptionsError::InstallNameWithoutDylib));
    assert_eq!(check_install_name(Some(b"/usr/lib/libx.dylib"), MachOOutputKind::Dylib), Ok(()));
    assert_eq!(check_install_name(None, MachOOutputKind::Executable), Ok(()));
    assert_eq!(dylib_install_name(None, b"out/libx.dylib"), b"out/libx.dylib");
    assert_eq!(dylib_install_name(Some(b"@rpath/libx.dylib"), b"out/libx.dylib"), b"@rpath/libx.dylib");
}
