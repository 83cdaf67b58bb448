//! The Mach-O file header and the fixed-layout load commands: segments with their section
//! headers, the entry point, the build version, the symbol table, and the `__LINKEDIT` data
//! commands.
use vstd::prelude::*;
use crate::bytes::{
    copy_zero_padded, le_u32, le_u64, lemma_le_u32_at, lemma_le_u64_at, push_u32, push_u64,
    u32_le_bytes, u64_le_bytes, zeros,
};
use crate::segment::{padded_name, SegmentName};

verus! {

/// `LC_SEGMENT_64`.
pub const LC_SEGMENT_64: u32 = 0x19;
/// `LC_SYMTAB`.
pub const LC_SYMTAB: u32 = 0x2;
/// `LC_MAIN`.
pub const LC_MAIN: u32 = 0x8000_0028;
/// `LC_BUILD_VERSION`.
pub const LC_BUILD_VERSION: u32 = 0x32;
/// `LC_CODE_SIGNATURE`.
pub const LC_CODE_SIGNATURE: u32 = 0x1d;
/// `LC_DYLD_CHAINED_FIXUPS`.
pub const LC_DYLD_CHAINED_FIXUPS: u32 = 0x8000_0034;
/// `LC_DYLD_EXPORTS_TRIE`.
pub const LC_DYLD_EXPORTS_TRIE: u32 = 0x8000_0033;
/// `PLATFORM_MACOS`.
pub const PLATFORM_MACOS: u32 = 1;
/// The size of `mach_header_64`.
pub const MACH_HEADER_SIZE: usize = 32;
/// The size of `segment_command_64`.
pub const SEGMENT_COMMAND_SIZE: usize = 72;
/// The size of `section_64`.
pub const SECTION_HEADER_SIZE: usize = 80;
/// The size of `entry_point_command`.
pub const ENTRY_POINT_COMMAND_SIZE: usize = 24;
/// The size of `build_version_command` without tool entries.
pub const BUILD_VERSION_COMMAND_SIZE: usize = 24;
/// The size of `symtab_command`.
pub const SYMTAB_COMMAND_SIZE: usize = 24;
/// The size of `linkedit_data_command`.
pub const LINKEDIT_DATA_COMMAND_SIZE: usize = 16;
/// The size of an `nlist_64` symbol-table entry.
pub const SYMTAB_ENTRY_SIZE: usize = 16;
/// The magic of a 64-bit little-endian Mach-O file.
pub const MH_MAGIC_64: u32 = 0xfeed_facf;
/// `CPU_TYPE_ARM64`.
pub const CPU_TYPE_ARM64: u32 = 0x0100_000c;
/// `MH_EXECUTE`.
pub const MH_EXECUTE: u32 = 0x2;
/// `MH_DYLIB`.
pub const MH_DYLIB: u32 = 0x6;
/// `MH_NOUNDEFS`.
pub const MH_NOUNDEFS: u32 = 0x1;
/// `MH_DYLDLINK`.
pub const MH_DYLDLINK: u32 = 0x4;
/// `MH_TWOLEVEL`.
pub const MH_TWOLEVEL: u32 = 0x80;
/// `MH_PIE`.
pub const MH_PIE: u32 = 0x20_0000;
/// `MH_HAS_TLV_DESCRIPTORS`.
pub const MH_HAS_TLV_DESCRIPTORS: u32 = 0x80_0000;
/// The section-type field of section flags.
pub const SECTION_TYPE: u32 = 0xff;
/// `S_SYMBOL_STUBS`.
pub const S_SYMBOL_STUBS: u32 = 0x8;
/// The size of a dyld stub, recorded in the stub section's `reserved2`.
pub const SYMBOL_STUB_SIZE: u32 = 12;
/// The first address of the image after `__PAGEZERO`.
pub const MACHO_START_MEM_ADDRESS: u64 = 0x1_0000_0000;

/// Why a header or load command could not be written.
#[derive(Debug, Clone, Copy, PartialEq, Eq)]
pub enum HeaderError {
    /// The load-command allocation is too small or the wrong size.
    InvalidAllocation,
    /// The entry point lies before the image base.
    EntryBeforeImageBase,
    /// No platform version was given.
    MissingPlatformVersion,
    /// An offset or size does not fit its 32-bit field.
    FieldTooLarge,
}

/// Writes `bytes` over the whole of `out`, which has their length.
fn fill(out: &mut [u8], bytes: &Vec<u8>)
    requires
        old(out)@.len() == bytes@.len(),
    ensures
        final(out)@ == bytes@,
{
    copy_zero_padded(out, bytes.as_slice());
    assert(bytes@ + zeros(0) =~= bytes@);
}

// ---------------------------------------------------------------------------------------------
// The file header
// ---------------------------------------------------------------------------------------------

/// The header flags: a two-level, dyld-linked image without undefined symbols; executables are
/// position independent, and an image with thread-local variables says so.
pub open spec fn header_flags(is_executable: bool, has_tlv_descriptors: bool) -> u32 {
    let base = MH_DYLDLINK | MH_NOUNDEFS | MH_TWOLEVEL;
    let pie = if is_executable {
        base | MH_PIE
    } else {
        base
    };
    if has_tlv_descriptors {
        pie | MH_HAS_TLV_DESCRIPTORS
    } else {
        pie
    }
}

/// The bytes of `mach_header_64` for an ARM64 image.
pub open spec fn file_header_bytes(
    is_shared_object: bool,
    is_executable: bool,
    load_command_count: u32,
    load_commands_size: u32,
    has_tlv_descriptors: bool,
) -> Seq<u8> {
    u32_le_bytes(MH_MAGIC_64) + u32_le_bytes(CPU_TYPE_ARM64) + u32_le_bytes(0) + u32_le_bytes(
        if is_shared_object {
            MH_DYLIB
        } else {
            MH_EXECUTE
        },
    ) + u32_le_bytes(load_command_count) + u32_le_bytes(load_commands_size) + u32_le_bytes(
        header_flags(is_executable, has_tlv_descriptors),
    ) + u32_le_bytes(0)
}

/// Fills in the file header of an ARM64 executable or dylib.
pub fn populate_file_header(
    header: &mut [u8],
    is_shared_object: bool,
    is_executable: bool,
    load_command_count: u32,
    load_commands_size: u32,
    has_tlv_descriptors: bool,
)
    requires
        old(header)@.len() == MACH_HEADER_SIZE,
    ensures
        final(header)@ == file_header_bytes(
            is_shared_object,
            is_executable,
            load_command_count,
            load_commands_size,
            has_tlv_descriptors,
        ),
{
    let mut flags = MH_DYLDLINK | MH_NOUNDEFS | MH_TWOLEVEL;
    if is_executable {
        flags = flags | MH_PIE;
    }
    if has_tlv_descriptors {
        flags = flags | MH_HAS_TLV_DESCRIPTORS;
    }
    let mut bytes: Vec<u8> = Vec::new();
    push_u32(&mut bytes, MH_MAGIC_64);
    push_u32(&mut bytes, CPU_TYPE_ARM64);
    push_u32(&mut bytes, 0);
    push_u32(&mut bytes, if is_shared_object { MH_DYLIB } else { MH_EXECUTE });
    push_u32(&mut bytes, load_command_count);
    push_u32(&mut bytes, load_commands_size);
    push_u32(&mut bytes, flags);
    push_u32(&mut bytes, 0);
    assert(bytes@ =~= file_header_bytes(
        is_shared_object,
        is_executable,
        load_command_count,
        load_commands_size,
        has_tlv_descriptors,
    ));
    fill(header, &bytes);
}

// ---------------------------------------------------------------------------------------------
// Segments
// ---------------------------------------------------------------------------------------------

/// The place of an output section in the image: its section name, addresses, file offset and
/// alignment, and its flags.
#[derive(Debug)]
pub struct SectionHeaderInfo {
    pub name: Vec<u8>,
    pub mem_offset: u64,
    pub mem_size: u64,
    pub file_offset: usize,
    pub alignment_exponent: u8,
    pub flags: u32,
}

/// An output segment and its sections.
#[derive(Debug)]
pub struct SegmentCommandInfo {
    pub name: SegmentName,
    pub protection: u32,
    pub file_offset: u64,
    pub file_size: u64,
    pub mem_offset: u64,
    pub mem_size: u64,
    pub flags: u32,
    pub sections: Vec<SectionHeaderInfo>,
}

/// The size of a segment command with `section_count` section headers.
pub open spec fn segment_command_size(section_count: int) -> int {
    SEGMENT_COMMAND_SIZE + SECTION_HEADER_SIZE * section_count
}

/// The bytes of `segment_command_64`; the maximum and initial protections are the same.
#[verifier::opaque]
pub open spec fn segment_command_bytes(
    name: Seq<u8>,
    protection: u32,
    file_offset: u64,
    file_size: u64,
    mem_offset: u64,
    mem_size: u64,
    section_count: int,
    flags: u32,
) -> Seq<u8> {
    u32_le_bytes(LC_SEGMENT_64) + u32_le_bytes(segment_command_size(section_count) as u32) + name
        + u64_le_bytes(mem_offset) + u64_le_bytes(mem_size) + u64_le_bytes(file_offset)
        + u64_le_bytes(file_size) + u32_le_bytes(protection) + u32_le_bytes(protection)
        + u32_le_bytes(section_count as u32) + u32_le_bytes(flags)
}

/// The fields of `segment_command_64` stand where the Mach-O layout puts them: `cmd` at 0,
/// `cmdsize` at 4, `segname` at 8, `vmaddr` at 24, `vmsize` at 32, `fileoff` at 40, `filesize`
/// at 48, `maxprot` at 56, `initprot` at 60, `nsects` at 64 and `flags` at 68, each little-endian.
pub proof fn lemma_segment_command_layout(
    name: Seq<u8>,
    protection: u32,
    file_offset: u64,
    file_size: u64,
    mem_offset: u64,
    mem_size: u64,
    section_count: int,
    flags: u32,
)
    requires
        name.len() == 16,
    ensures
        ({
            let b = segment_command_bytes(
                name,
                protection,
                file_offset,
                file_size,
                mem_offset,
                mem_size,
                section_count,
                flags,
            );
            &&& b.len() == 72
            &&& le_u32(b, 0) == 0x19
            &&& le_u32(b, 4) == (72 + 80 * section_count) as u32
            &&& b.subrange(8, 24) == name
            &&& le_u64(b, 24) == mem_offset
            &&& le_u64(b, 32) == mem_size
            &&& le_u64(b, 40) == file_offset
            &&& le_u64(b, 48) == file_size
            &&& le_u32(b, 56) == protection
            &&& le_u32(b, 60) == protection
            &&& le_u32(b, 64) == section_count as u32
            &&& le_u32(b, 68) == flags
        }),
{
    reveal(segment_command_bytes);
    let b = segment_command_bytes(
        name,
        protection,
        file_offset,
        file_size,
        mem_offset,
        mem_size,
        section_count,
        flags,
    );
    assert(b.subrange(0, 4) =~= u32_le_bytes(0x19));
    assert(b.subrange(4, 8) =~= u32_le_bytes(segment_command_size(section_count) as u32));
    assert(b.subrange(8, 24) =~= name);
    assert(b.subrange(24, 32) =~= u64_le_bytes(mem_offset));
    assert(b.subrange(32, 40) =~= u64_le_bytes(mem_size));
    assert(b.subrange(40, 48) =~= u64_le_bytes(file_offset));
    assert(b.subrange(48, 56) =~= u64_le_bytes(file_size));
    assert(b.subrange(56, 60) =~= u32_le_bytes(protection));
    assert(b.subrange(60, 64) =~= u32_le_bytes(protection));
    assert(b.subrange(64, 68) =~= u32_le_bytes(section_count as u32));
    assert(b.subrange(68, 72) =~= u32_le_bytes(flags));
    lemma_le_u32_at(b, 0, 0x19);
    lemma_le_u32_at(b, 4, segment_command_size(section_count) as u32);
    lemma_le_u64_at(b, 24, mem_offset);
    lemma_le_u64_at(b, 32, mem_size);
    lemma_le_u64_at(b, 40, file_offset);
    lemma_le_u64_at(b, 48, file_size);
    lemma_le_u32_at(b, 56, protection);
    lemma_le_u32_at(b, 60, protection);
    lemma_le_u32_at(b, 64, section_count as u32);
    lemma_le_u32_at(b, 68, flags);
}

/// Writes a segment command.
pub fn write_segment(
    segment_command: &mut [u8],
    name: SegmentName,
    protection: u32,
    file_offset: u64,
    file_size: u64,
    mem_offset: u64,
    mem_size: u64,
    section_count: usize,
    flags: u32,
)
    requires
        old(segment_command)@.len() == SEGMENT_COMMAND_SIZE,
        segment_command_size(section_count as int) <= usize::MAX,
    ensures
        final(segment_command)@ == segment_command_bytes(
            name@,
            protection,
            file_offset,
            file_size,
            mem_offset,
            mem_size,
            section_count as int,
            flags,
        ),
        final(segment_command)@.subrange(8, 24) == name@,
        le_u64(final(segment_command)@, 24) == mem_offset,
        le_u64(final(segment_command)@, 32) == mem_size,
        le_u64(final(segment_command)@, 40) == file_offset,
        le_u64(final(segment_command)@, 48) == file_size,
        le_u32(final(segment_command)@, 56) == protection,
        le_u32(final(segment_command)@, 60) == protection,
        le_u32(final(segment_command)@, 64) == section_count as u32,
        le_u32(final(segment_command)@, 68) == flags,
{
    proof {
        lemma_segment_command_layout(
            name@,
            protection,
            file_offset,
            file_size,
            mem_offset,
            mem_size,
            section_count as int,
            flags,
        );
    }
    let mut bytes: Vec<u8> = Vec::new();
    push_u32(&mut bytes, LC_SEGMENT_64);
    push_u32(&mut bytes, (SEGMENT_COMMAND_SIZE + SECTION_HEADER_SIZE * section_count) as u32);
    let raw = name.into_bytes();
    let mut i: usize = 0;
    let ghost head = bytes@;
    while i < 16
        invariant
            0 <= i <= 16,
            raw@ == name@,
            raw@.len() == 16,
            bytes@ == head + raw@.take(i as int),
        decreases 16 - i,
    {
        bytes.push(raw[i]);
        assert(bytes@ =~= head + raw@.take(i + 1));
        i = i + 1;
    }
    assert(raw@.take(16) =~= raw@);
    push_u64(&mut bytes, mem_offset);
    push_u64(&mut bytes, mem_size);
    push_u64(&mut bytes, file_offset);
    push_u64(&mut bytes, file_size);
    push_u32(&mut bytes, protection);
    push_u32(&mut bytes, protection);
    push_u32(&mut bytes, section_count as u32);
    push_u32(&mut bytes, flags);
    assert(bytes@ == segment_command_bytes(
        name@,
        protection,
        file_offset,
        file_size,
        mem_offset,
        mem_size,
        section_count as int,
        flags,
    )) by {
        reveal(segment_command_bytes);
        assert(bytes@ =~= segment_command_bytes(
            name@,
            protection,
            file_offset,
            file_size,
            mem_offset,
            mem_size,
            section_count as int,
            flags,
        ));
    }
    fill(segment_command, &bytes);
}

/// The `reserved2` field of a section header: the stub size for a symbol-stub section.
pub open spec fn section_reserved2(flags: u32) -> u32 {
    if flags & SECTION_TYPE == S_SYMBOL_STUBS {
        SYMBOL_STUB_SIZE
    } else {
        0
    }
}

/// The bytes of `section_64` for a section of segment `segment`.
#[verifier::opaque]
pub open spec fn section_header_bytes(segment: SegmentName, section: SectionHeaderInfo) -> Seq<u8> {
    padded_name(section.name@) + segment@ + u64_le_bytes(section.mem_offset) + u64_le_bytes(
        section.mem_size,
    ) + u32_le_bytes(section.file_offset as u32) + u32_le_bytes(section.alignment_exponent as u32)
        + u32_le_bytes(0) + u32_le_bytes(0) + u32_le_bytes(section.flags) + u32_le_bytes(0)
        + u32_le_bytes(section_reserved2(section.flags)) + u32_le_bytes(0)
}

/// The section headers of the first `n` sections.
pub open spec fn section_headers_bytes(segment: SegmentName, sections: Seq<SectionHeaderInfo>, n: int) -> Seq<u8>
    decreases n,
{
    if n <= 0 {
        Seq::empty()
    } else {
        section_headers_bytes(segment, sections, n - 1) + section_header_bytes(segment, sections[n - 1])
    }
}

/// Appends the header of one section.
fn push_section_header(bytes: &mut Vec<u8>, segment: SegmentName, section: &SectionHeaderInfo)
    requires
        section.name@.len() <= 16,
    ensures
        final(bytes)@ == old(bytes)@ + section_header_bytes(segment, *section),
        final(bytes)@.len() == old(bytes)@.len() + SECTION_HEADER_SIZE,
{
    let name = SegmentName::from_bytes(section.name.as_slice()).into_bytes();
    let raw = segment.into_bytes();
    let ghost head = bytes@;
    let mut i: usize = 0;
    while i < 16
        invariant
            0 <= i <= 16,
            name@ == padded_name(section.name@),
            name@.len() == 16,
            bytes@ == head + name@.take(i as int),
        decreases 16 - i,
    {
        bytes.push(name[i]);
        assert(bytes@ =~= head + name@.take(i + 1));
        i = i + 1;
    }
    assert(name@.take(16) =~= name@);
    let ghost mid = bytes@;
    let mut i: usize = 0;
    while i < 16
        invariant
            0 <= i <= 16,
            raw@ == segment@,
            raw@.len() == 16,
            bytes@ == mid + raw@.take(i as int),
        decreases 16 - i,
    {
        bytes.push(raw[i]);
        assert(bytes@ =~= mid + raw@.take(i + 1));
        i = i + 1;
    }
    assert(raw@.take(16) =~= raw@);
    push_u64(bytes, section.mem_offset);
    push_u64(bytes, section.mem_size);
    push_u32(bytes, section.file_offset as u32);
    push_u32(bytes, section.alignment_exponent as u32);
    push_u32(bytes, 0);
    push_u32(bytes, 0);
    push_u32(bytes, section.flags);
    push_u32(bytes, 0);
    let reserved2 = if section.flags & SECTION_TYPE == S_SYMBOL_STUBS {
        SYMBOL_STUB_SIZE
    } else {
        0
    };
    push_u32(bytes, reserved2);
    push_u32(bytes, 0);
    assert(bytes@ == head + section_header_bytes(segment, *section)) by {
        reveal(section_header_bytes);
        assert(bytes@ =~= head + section_header_bytes(segment, *section));
    }
}

/// Writes the headers of `sections`, which belong to `segment`, into `headers`, which holds
/// exactly one header per section.
pub fn write_sections(headers: &mut [u8], segment: SegmentName, sections: &[SectionHeaderInfo])
    requires
        old(headers)@.len() == SECTION_HEADER_SIZE * sections@.len(),
        forall|i: int| 0 <= i < sections@.len() ==> (#[trigger] sections@[i]).name@.len() <= 16,
    ensures
        final(headers)@ == section_headers_bytes(segment, sections@, sections@.len() as int),
{
    let mut bytes: Vec<u8> = Vec::new();
    let mut i: usize = 0;
    while i < sections.len()
        invariant
            0 <= i <= sections@.len(),
            forall|j: int| 0 <= j < sections@.len() ==> (#[trigger] sections@[j]).name@.len() <= 16,
            bytes@ == section_headers_bytes(segment, sections@, i as int),
            bytes@.len() == SECTION_HEADER_SIZE * i,
        decreases sections@.len() - i,
    {
        push_section_header(&mut bytes, segment, &sections[i]);
        i = i + 1;
    }
    fill(headers, &bytes);
}

/// The load commands of the segments: `__PAGEZERO` first for an executable, then each segment
/// with its section headers.
pub open spec fn segment_commands_bytes(is_executable: bool, segments: Seq<SegmentCommandInfo>, n: int) -> Seq<u8>
    decreases n,
{
    if n <= 0 {
        if is_executable {
            segment_command_bytes(
                SegmentName::spec_pagezero(),
                0,
                0,
                0,
                0,
                MACHO_START_MEM_ADDRESS,
                0,
                0,
            )
        } else {
            Seq::empty()
        }
    } else {
        let s = segments[n - 1];
        segment_commands_bytes(is_executable, segments, n - 1) + segment_command_bytes(
            s.name@,
            s.protection,
            s.file_offset,
            s.file_size,
            s.mem_offset,
            s.mem_size,
            s.sections@.len() as int,
            s.flags,
        ) + section_headers_bytes(s.name, s.sections@, s.sections@.len() as int)
    }
}

/// Writes the segment load commands at the start of `load_commands` and says how many bytes
/// they take.
pub fn write_segment_commands(
    load_commands: &mut [u8],
    is_executable: bool,
    segments: &[SegmentCommandInfo],
) -> (r: Result<usize, HeaderError>)
    requires
        forall|i: int|
            0 <= i < segments@.len() ==> segment_command_size(
                (#[trigger] segments@[i]).sections@.len() as int,
            ) <= usize::MAX,
        forall|i: int, j: int|
            0 <= i < segments@.len() && 0 <= j < segments@[i].sections@.len()
                ==> (#[trigger] segments@[i].sections@[j]).name@.len() <= 16,
    ensures
        ({
            let bytes = segment_commands_bytes(is_executable, segments@, segments@.len() as int);
            &&& bytes.len() > old(load_commands)@.len() ==> r == Err::<usize, HeaderError>(
                HeaderError::InvalidAllocation,
            ) && final(load_commands)@ == old(load_commands)@
            &&& bytes.len() <= old(load_commands)@.len() ==> r == Ok::<usize, HeaderError>(
                bytes.len() as usize,
            ) && final(load_commands)@ == bytes + old(load_commands)@.subrange(
                bytes.len() as int,
                old(load_commands)@.len() as int,
            )
        }),
{
    let mut bytes: Vec<u8> = Vec::new();
    if is_executable {
        let mut command = vec![0u8; SEGMENT_COMMAND_SIZE];
        write_segment(
            command.as_mut_slice(),
            SegmentName::pagezero(),
            0,
            0,
            0,
            0,
            MACHO_START_MEM_ADDRESS,
            0,
            0,
        );
        bytes = command;
    }
    assert(bytes@ == segment_commands_bytes(is_executable, segments@, 0));
    let mut i: usize = 0;
    while i < segments.len()
        invariant
            0 <= i <= segments@.len(),
            forall|k: int|
                0 <= k < segments@.len() ==> segment_command_size(
                    (#[trigger] segments@[k]).sections@.len() as int,
                ) <= usize::MAX,
            forall|k: int, j: int|
                0 <= k < segments@.len() && 0 <= j < segments@[k].sections@.len()
                    ==> (#[trigger] segments@[k].sections@[j]).name@.len() <= 16,
            bytes@ == segment_commands_bytes(is_executable, segments@, i as int),
        decreases segments@.len() - i,
    {
        let segment = &segments[i];
        let count = segment.sections.len();
        let mut command = vec![0u8; SEGMENT_COMMAND_SIZE];
        write_segment(
            command.as_mut_slice(),
            segment.name,
            segment.protection,
            segment.file_offset,
            segment.file_size,
            segment.mem_offset,
            segment.mem_size,
            count,
            segment.flags,
        );
        let mut headers = vec![0u8; SECTION_HEADER_SIZE * count];
        write_sections(headers.as_mut_slice(), segment.name, segment.sections.as_slice());
        let ghost before = bytes@;
        bytes.extend_from_slice(command.as_slice());
        bytes.extend_from_slice(headers.as_slice());
        assert(bytes@ =~= before + command@ + headers@);
        i = i + 1;
    }
    if bytes.len() > load_commands.len() {
        return Err(HeaderError::InvalidAllocation);
    }
    let mut k: usize = 0;
    while k < bytes.len()
        invariant
            0 <= k <= bytes@.len() <= load_commands@.len(),
            load_commands@.len() == old(load_commands)@.len(),
            forall|j: int| 0 <= j < k ==> load_commands@[j] == bytes@[j],
            forall|j: int| k <= j < load_commands@.len() ==> load_commands@[j] == old(load_commands)@[j],
        decreases bytes@.len() - k,
    {
        load_commands[k] = bytes[k];
        k = k + 1;
    }
    assert(load_commands@ =~= bytes@ + old(load_commands)@.subrange(
        bytes@.len() as int,
        old(load_commands)@.len() as int,
    ));
    Ok(bytes.len())
}

// ---------------------------------------------------------------------------------------------
// Other fixed commands
// ---------------------------------------------------------------------------------------------

/// The bytes of `entry_point_command`: the entry's offset from the image base and no stack size.
pub open spec fn entry_point_command_bytes(entry_offset: u64) -> Seq<u8> {
    u32_le_bytes(LC_MAIN) + u32_le_bytes(ENTRY_POINT_COMMAND_SIZE as u32) + u64_le_bytes(entry_offset)
        + u64_le_bytes(0)
}

/// Writes the `LC_MAIN` command of an executable whose entry symbol is at `entry_address`.
pub fn write_entry_point_command(command: &mut [u8], entry_address: u64, image_base: u64) -> (r: Result<
    (),
    HeaderError,
>)
    requires
        old(command)@.len() == ENTRY_POINT_COMMAND_SIZE,
    ensures
        entry_address < image_base ==> r == Err::<(), HeaderError>(HeaderError::EntryBeforeImageBase)
            && final(command)@ == old(command)@,
        entry_address >= image_base ==> r is Ok && final(command)@ == entry_point_command_bytes(
            (entry_address - image_base) as u64,
        ),
{
    if entry_address < image_base {
        return Err(HeaderError::EntryBeforeImageBase);
    }
    let mut bytes: Vec<u8> = Vec::new();
    push_u32(&mut bytes, LC_MAIN);
    push_u32(&mut bytes, ENTRY_POINT_COMMAND_SIZE as u32);
    push_u64(&mut bytes, entry_address - image_base);
    push_u64(&mut bytes, 0);
    assert(bytes@ =~= entry_point_command_bytes((entry_address - image_base) as u64));
    fill(command, &bytes);
    Ok(())
}

/// The bytes of `build_version_command` for macOS with no tool entries.
pub open spec fn build_version_command_bytes(minimum_version: u32, sdk_version: u32) -> Seq<u8> {
    u32_le_bytes(LC_BUILD_VERSION) + u32_le_bytes(BUILD_VERSION_COMMAND_SIZE as u32) + u32_le_bytes(
        PLATFORM_MACOS,
    ) + u32_le_bytes(minimum_version) + u32_le_bytes(sdk_version) + u32_le_bytes(0)
}

/// Writes the `LC_BUILD_VERSION` command from the `-platform_version` minimum and SDK versions,
/// which must have been given.
pub fn write_build_version_command(command: &mut [u8], platform_version: Option<(u32, u32)>) -> (r:
    Result<(), HeaderError>)
    requires
        old(command)@.len() == BUILD_VERSION_COMMAND_SIZE,
    ensures
        platform_version is None ==> r == Err::<(), HeaderError>(HeaderError::MissingPlatformVersion)
            && final(command)@ == old(command)@,
        platform_version matches Some((minimum, sdk)) ==> r is Ok && final(command)@
            == build_version_command_bytes(minimum, sdk),
{
    let (minimum, sdk) = match platform_version {
        None => {
            return Err(HeaderError::MissingPlatformVersion);
        },
        Some(versions) => versions,
    };
    let mut bytes: Vec<u8> = Vec::new();
    push_u32(&mut bytes, LC_BUILD_VERSION);
    push_u32(&mut bytes, BUILD_VERSION_COMMAND_SIZE as u32);
    push_u32(&mut bytes, PLATFORM_MACOS);
    push_u32(&mut bytes, minimum);
    push_u32(&mut bytes, sdk);
    push_u32(&mut bytes, 0);
    assert(bytes@ =~= build_version_command_bytes(minimum, sdk));
    fill(command, &bytes);
    Ok(())
}

/// The bytes of `symtab_command`.
pub open spec fn symtab_command_bytes(symoff: usize, symtab_size: usize, stroff: usize, strsize: usize) -> Seq<u8> {
    u32_le_bytes(LC_SYMTAB) + u32_le_bytes(SYMTAB_COMMAND_SIZE as u32) + u32_le_bytes(symoff as u32)
        + u32_le_bytes((symtab_size / SYMTAB_ENTRY_SIZE) as u32) + u32_le_bytes(stroff as u32)
        + u32_le_bytes(strsize as u32)
}

/// Writes the `LC_SYMTAB` command for a symbol table of `symtab_size` bytes at `symoff` and a
/// string table of `strsize` bytes at `stroff`; each field keeps the low 32 bits.
pub fn write_symtab_command(command: &mut [u8], symoff: usize, symtab_size: usize, stroff: usize, strsize: usize)
    requires
        old(command)@.len() == SYMTAB_COMMAND_SIZE,
    ensures
        final(command)@ == symtab_command_bytes(symoff, symtab_size, stroff, strsize),
{
    let mut bytes: Vec<u8> = Vec::new();
    push_u32(&mut bytes, LC_SYMTAB);
    push_u32(&mut bytes, SYMTAB_COMMAND_SIZE as u32);
    push_u32(&mut bytes, symoff as u32);
    push_u32(&mut bytes, (symtab_size / SYMTAB_ENTRY_SIZE) as u32);
    push_u32(&mut bytes, stroff as u32);
    push_u32(&mut bytes, strsize as u32);
    assert(bytes@ =~= symtab_command_bytes(symoff, symtab_size, stroff, strsize));
    fill(command, &bytes);
}

/// The bytes of a `linkedit_data_command`.
pub open spec fn linkedit_data_command_bytes(cmd: u32, dataoff: u32, datasize: u32) -> Seq<u8> {
    u32_le_bytes(cmd) + u32_le_bytes(LINKEDIT_DATA_COMMAND_SIZE as u32) + u32_le_bytes(dataoff)
        + u32_le_bytes(datasize)
}

/// Writes a `linkedit_data_command`.
fn write_linkedit_data_command(command: &mut [u8], cmd: u32, dataoff: u32, datasize: u32)
    requires
        old(command)@.len() == LINKEDIT_DATA_COMMAND_SIZE,
    ensures
        final(command)@ == linkedit_data_command_bytes(cmd, dataoff, datasize),
{
    let mut bytes: Vec<u8> = Vec::new();
    push_u32(&mut bytes, cmd);
    push_u32(&mut bytes, LINKEDIT_DATA_COMMAND_SIZE as u32);
    push_u32(&mut bytes, dataoff);
    push_u32(&mut bytes, datasize);
    assert(bytes@ =~= linkedit_data_command_bytes(cmd, dataoff, datasize));
    fill(command, &bytes);
}

/// Writes the `LC_DYLD_CHAINED_FIXUPS` command for the fixup table at `file_offset`; each field
/// keeps the low 32 bits.
pub fn write_dyld_chained_fixups_command(command: &mut [u8], file_offset: usize, file_size: usize)
    requires
        old(command)@.len() == LINKEDIT_DATA_COMMAND_SIZE,
    ensures
        final(command)@ == linkedit_data_command_bytes(
            LC_DYLD_CHAINED_FIXUPS,
            file_offset as u32,
            file_size as u32,
        ),
{
    write_linkedit_data_command(command, LC_DYLD_CHAINED_FIXUPS, file_offset as u32, file_size as u32);
}

/// Writes the `LC_CODE_SIGNATURE` command for the signature at `file_offset`; each field keeps
/// the low 32 bits.
pub fn write_code_signature_command(command: &mut [u8], file_offset: usize, file_size: usize)
    requires
        old(command)@.len() == LINKEDIT_DATA_COMMAND_SIZE,
    ensures
        final(command)@ == linkedit_data_command_bytes(
            LC_CODE_SIGNATURE,
            file_offset as u32,
            file_size as u32,
        ),
{
    write_linkedit_data_command(command, LC_CODE_SIGNATURE, file_offset as u32, file_size as u32);
}

/// Writes the `LC_DYLD_EXPORTS_TRIE` command for a trie of `trie_size` bytes at `file_offset`,
/// both of which must fit 32 bits.
pub fn write_exports_trie_command(command: &mut [u8], file_offset: usize, trie_size: usize) -> (r:
    Result<(), HeaderError>)
    requires
        old(command)@.len() == LINKEDIT_DATA_COMMAND_SIZE,
    ensures
        (file_offset > u32::MAX || trie_size > u32::MAX) ==> r == Err::<(), HeaderError>(
            HeaderError::FieldTooLarge,
        ) && final(command)@ == old(command)@,
        (file_offset <= u32::MAX && trie_size <= u32::MAX) ==> r is Ok && final(command)@
            == linkedit_data_command_bytes(LC_DYLD_EXPORTS_TRIE, file_offset as u32, trie_size as u32),
{
    if file_offset > 0xffff_ffff || trie_size > 0xffff_ffff {
        return Err(HeaderError::FieldTooLarge);
    }
    write_linkedit_data_command(command, LC_DYLD_EXPORTS_TRIE, file_offset as u32, trie_size as u32);
    Ok(())
}

/// The fields of `mach_header_64` stand where the Mach-O layout puts them: `magic` at 0,
/// `cputype` at 4, `cpusubtype` at 8, `filetype` at 12, `ncmds` at 16, `sizeofcmds` at 20,
/// `flags` at 24 and `reserved` at 28.
pub proof fn lemma_file_header_layout(is_shared_object: bool, is_executable: bool, load_command_count: u32, load_commands_size: u32, has_tlv_descriptors: bool)
    ensures
        ({
            let b = file_header_bytes(is_shared_object, is_executable, load_command_count, load_commands_size, has_tlv_descriptors);
            &&& b.len() == 32
            &&& le_u32(b, 0) == 0xfeed_facf
            &&& le_u32(b, 4) == 0x0100_000c
            &&& le_u32(b, 8) == 0
            &&& le_u32(b, 12) == (if is_shared_object { 6u32 } else { 2u32 })
            &&& le_u32(b, 16) == load_command_count
            &&& le_u32(b, 20) == load_commands_size
            &&& le_u32(b, 24) == header_flags(is_executable, has_tlv_descriptors)
            &&& le_u32(b, 28) == 0
        }),
{
    let b = file_header_bytes(is_shared_object, is_executable, load_command_count, load_commands_size, has_tlv_descriptors);
    assert(b.subrange(0, 4) =~= u32_le_bytes(MH_MAGIC_64));
    assert(b.subrange(4, 8) =~= u32_le_bytes(CPU_TYPE_ARM64));
    assert(b.subrange(8, 12) =~= u32_le_bytes(0));
    assert(b.subrange(12, 16) =~= u32_le_bytes((if is_shared_object { MH_DYLIB } else { MH_EXECUTE })));
    assert(b.subrange(16, 20) =~= u32_le_bytes(load_command_count));
    assert(b.subrange(20, 24) =~= u32_le_bytes(load_commands_size));
    assert(b.subrange(24, 28) =~= u32_le_bytes(header_flags(is_executable, has_tlv_descriptors)));
    assert(b.subrange(28, 32) =~= u32_le_bytes(0));
    lemma_le_u32_at(b, 0, MH_MAGIC_64);
    lemma_le_u32_at(b, 4, CPU_TYPE_ARM64);
    lemma_le_u32_at(b, 8, 0);
    lemma_le_u32_at(b, 12, (if is_shared_object { MH_DYLIB } else { MH_EXECUTE }));
    lemma_le_u32_at(b, 16, load_command_count);
    lemma_le_u32_at(b, 20, load_commands_size);
    lemma_le_u32_at(b, 24, header_flags(is_executable, has_tlv_descriptors));
    lemma_le_u32_at(b, 28, 0);
}

/// The fields of `section_64` stand where the Mach-O layout puts them: `sectname` at 0,
/// `segname` at 16, `addr` at 32, `size` at 40, `offset` at 48, `align` at 52, `reloff` at 56,
/// `nreloc` at 60, `flags` at 64 and `reserved1` to `reserved3` at 68, 72 and 76.
pub proof fn lemma_section_header_layout(segment: SegmentName, section: SectionHeaderInfo)
    requires
        section.name@.len() <= 16,
        segment@.len() == 16,
    ensures
        ({
            let b = section_header_bytes(segment, section);
            &&& b.len() == 80
            &&& b.subrange(0, 16) == padded_name(section.name@)
            &&& b.subrange(16, 32) == segment@
            &&& le_u64(b, 32) == section.mem_offset
            &&& le_u64(b, 40) == section.mem_size
            &&& le_u32(b, 48) == section.file_offset as u32
            &&& le_u32(b, 52) == section.alignment_exponent as u32
            &&& le_u32(b, 56) == 0
            &&& le_u32(b, 60) == 0
            &&& le_u32(b, 64) == section.flags
            &&& le_u32(b, 68) == 0
            &&& le_u32(b, 72) == section_reserved2(section.flags)
            &&& le_u32(b, 76) == 0
        }),
{
    reveal(section_header_bytes);
    let b = section_header_bytes(segment, section);
    assert(padded_name(section.name@).len() == 16);
    assert(b.subrange(0, 16) =~= padded_name(section.name@));
    assert(b.subrange(16, 32) =~= segment@);
    assert(b.subrange(32, 40) =~= u64_le_bytes(section.mem_offset));
    assert(b.subrange(40, 48) =~= u64_le_bytes(section.mem_size));
    assert(b.subrange(48, 52) =~= u32_le_bytes(section.file_offset as u32));
    assert(b.subrange(52, 56) =~= u32_le_bytes(section.alignment_exponent as u32));
    assert(b.subrange(56, 60) =~= u32_le_bytes(0));
    assert(b.subrange(60, 64) =~= u32_le_bytes(0));
    assert(b.subrange(64, 68) =~= u32_le_bytes(section.flags));
    assert(b.subrange(68, 72) =~= u32_le_bytes(0));
    assert(b.subrange(72, 76) =~= u32_le_bytes(section_reserved2(section.flags)));
    assert(b.subrange(76, 80) =~= u32_le_bytes(0));
    lemma_le_u64_at(b, 32, section.mem_offset);
    lemma_le_u64_at(b, 40, section.mem_size);
    lemma_le_u32_at(b, 48, section.file_offset as u32);
    lemma_le_u32_at(b, 52, section.alignment_exponent as u32);
    lemma_le_u32_at(b, 56, 0);
    lemma_le_u32_at(b, 60, 0);
    lemma_le_u32_at(b, 64, section.flags);
    lemma_le_u32_at(b, 68, 0);
    lemma_le_u32_at(b, 72, section_reserved2(section.flags));
    lemma_le_u32_at(b, 76, 0);
}

/// The fields of `entry_point_command` stand where the Mach-O layout puts them: `cmd` at 0,
/// `cmdsize` at 4, `entryoff` at 8 and `stacksize` at 16.
pub proof fn lemma_entry_point_command_layout(entry_offset: u64)
    ensures
        ({
            let b = entry_point_command_bytes(entry_offset);
            &&& b.len() == 24
            &&& le_u32(b, 0) == 0x8000_0028
            &&& le_u32(b, 4) == 24
            &&& le_u64(b, 8) == entry_offset
            &&& le_u64(b, 16) == 0
        }),
{
    let b = entry_point_command_bytes(entry_offset);
    assert(b.subrange(0, 4) =~= u32_le_bytes(LC_MAIN));
    assert(b.subrange(4, 8) =~= u32_le_bytes(ENTRY_POINT_COMMAND_SIZE as u32));
    assert(b.subrange(8, 16) =~= u64_le_bytes(entry_offset));
    assert(b.subrange(16, 24) =~= u64_le_bytes(0));
    lemma_le_u32_at(b, 0, LC_MAIN);
    lemma_le_u32_at(b, 4, ENTRY_POINT_COMMAND_SIZE as u32);
    lemma_le_u64_at(b, 8, entry_offset);
    lemma_le_u64_at(b, 16, 0);
}

/// The fields of `build_version_command` stand where the Mach-O layout puts them: `cmd` at 0,
/// `cmdsize` at 4, `platform` at 8, `minos` at 12, `sdk` at 16 and `ntools` at 20.
pub proof fn lemma_build_version_command_layout(minimum_version: u32, sdk_version: u32)
    ensures
        ({
            let b = build_version_command_bytes(minimum_version, sdk_version);
            &&& b.len() == 24
            &&& le_u32(b, 0) == 0x32
            &&& le_u32(b, 4) == 24
            &&& le_u32(b, 8) == 1
            &&& le_u32(b, 12) == minimum_version
            &&& le_u32(b, 16) == sdk_version
            &&& le_u32(b, 20) == 0
        }),
{
    let b = build_version_command_bytes(minimum_version, sdk_version);
    assert(b.subrange(0, 4) =~= u32_le_bytes(LC_BUILD_VERSION));
    assert(b.subrange(4, 8) =~= u32_le_bytes(BUILD_VERSION_COMMAND_SIZE as u32));
    assert(b.subrange(8, 12) =~= u32_le_bytes(PLATFORM_MACOS));
    assert(b.subrange(12, 16) =~= u32_le_bytes(minimum_version));
    assert(b.subrange(16, 20) =~= u32_le_bytes(sdk_version));
    assert(b.subrange(20, 24) =~= u32_le_bytes(0));
    lemma_le_u32_at(b, 0, LC_BUILD_VERSION);
    lemma_le_u32_at(b, 4, BUILD_VERSION_COMMAND_SIZE as u32);
    lemma_le_u32_at(b, 8, PLATFORM_MACOS);
    lemma_le_u32_at(b, 12, minimum_version);
    lemma_le_u32_at(b, 16, sdk_version);
    lemma_le_u32_at(b, 20, 0);
}

/// The fields of `symtab_command` stand where the Mach-O layout puts them: `cmd` at 0,
/// `cmdsize` at 4, `symoff` at 8, `nsyms` at 12 (sixteen-byte entries), `stroff` at 16 and
/// `strsize` at 20.
pub proof fn lemma_symtab_command_layout(symoff: usize, symtab_size: usize, stroff: usize, strsize: usize)
    ensures
        ({
            let b = symtab_command_bytes(symoff, symtab_size, stroff, strsize);
            &&& b.len() == 24
            &&& le_u32(b, 0) == 0x2
            &&& le_u32(b, 4) == 24
            &&& le_u32(b, 8) == symoff as u32
            &&& le_u32(b, 12) == (symtab_size / 16) as u32
            &&& le_u32(b, 16) == stroff as u32
            &&& le_u32(b, 20) == strsize as u32
        }),
{
    let b = symtab_command_bytes(symoff, symtab_size, stroff, strsize);
    assert(b.subrange(0, 4) =~= u32_le_bytes(LC_SYMTAB));
    assert(b.subrange(4, 8) =~= u32_le_bytes(SYMTAB_COMMAND_SIZE as u32));
    assert(b.subrange(8, 12) =~= u32_le_bytes(symoff as u32));
    assert(b.subrange(12, 16) =~= u32_le_bytes((symtab_size / SYMTAB_ENTRY_SIZE) as u32));
    assert(b.subrange(16, 20) =~= u32_le_bytes(stroff as u32));
    assert(b.subrange(20, 24) =~= u32_le_bytes(strsize as u32));
    lemma_le_u32_at(b, 0, LC_SYMTAB);
    lemma_le_u32_at(b, 4, SYMTAB_COMMAND_SIZE as u32);
    lemma_le_u32_at(b, 8, symoff as u32);
    lemma_le_u32_at(b, 12, (symtab_size / SYMTAB_ENTRY_SIZE) as u32);
    lemma_le_u32_at(b, 16, stroff as u32);
    lemma_le_u32_at(b, 20, strsize as u32);
}

/// The fields of `linkedit_data_command` stand where the Mach-O layout puts them: `cmd` at 0,
/// `cmdsize` at 4, `dataoff` at 8 and `datasize` at 12.
pub proof fn lemma_linkedit_data_command_layout(cmd: u32, dataoff: u32, datasize: u32)
    ensures
        ({
            let b = linkedit_data_command_bytes(cmd, dataoff, datasize);
            &&& b.len() == 16
            &&& le_u32(b, 0) == cmd
            &&& le_u32(b, 4) == 16
            &&& le_u32(b, 8) == dataoff
            &&& le_u32(b, 12) == datasize
        }),
{
    let b = linkedit_data_command_bytes(cmd, dataoff, datasize);
    assert(b.subrange(0, 4) =~= u32_le_bytes(cmd));
    assert(b.subrange(4, 8) =~= u32_le_bytes(LINKEDIT_DATA_COMMAND_SIZE as u32));
    assert(b.subrange(8, 12) =~= u32_le_bytes(dataoff));
    assert(b.subrange(12, 16) =~= u32_le_bytes(datasize));
    lemma_le_u32_at(b, 0, cmd);
    lemma_le_u32_at(b, 4, LINKEDIT_DATA_COMMAND_SIZE as u32);
    lemma_le_u32_at(b, 8, dataoff);
    lemma_le_u32_at(b, 12, datasize);
}

} // verus!
