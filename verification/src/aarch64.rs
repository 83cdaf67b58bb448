//! ARM64 relocation kinds and instruction patching: what each Mach-O relocation type means,
//! how a value is placed into an instruction, and the fixed stub, island and TLV sequences.
use vstd::prelude::*;
use std::collections::BTreeMap;
use crate::sections::{is_tls_section_type, spec_is_tls_section_type, S_THREAD_LOCAL_VARIABLES};
use crate::bytes::{le_u32, lemma_le_u32_at, read_u32_le, splice, u32_le_bytes, write_u32_at};
use crate::relocations::{
    RelocationInfo, ARM64_RELOC_ADDEND, ARM64_RELOC_AUTHENTICATED_POINTER, ARM64_RELOC_BRANCH26,
    ARM64_RELOC_GOT_LOAD_PAGE21, ARM64_RELOC_GOT_LOAD_PAGEOFF12, ARM64_RELOC_PAGE21,
    ARM64_RELOC_PAGEOFF12, ARM64_RELOC_POINTER_TO_GOT, ARM64_RELOC_SUBTRACTOR,
    ARM64_RELOC_TLVP_LOAD_PAGE21, ARM64_RELOC_TLVP_LOAD_PAGEOFF12, ARM64_RELOC_UNSIGNED,
};

verus! {

broadcast use vstd::std_specs::btree::group_btree_axioms;

/// The low twelve bits of an address: its offset within a 4 KiB page.
pub const PAGE_MASK_4KB: u64 = 0xfff;
/// The size of a 4 KiB page.
pub const SIZE_4KB: u64 = 0x1000;
/// The reach of a `B`/`BL` in either direction.
pub const MIN_BRANCH_RANGE: u64 = 0x800_0000;
/// The size of a dyld symbol stub.
pub const PLT_ENTRY_SIZE: usize = 12;
/// The size of a branch island.
pub const THUNK_SIZE: usize = 12;

/// The instruction field a relocation value is written into.
#[derive(Debug, Clone, Copy, PartialEq, Eq)]
pub enum AArch64Instruction {
    /// The 21-bit page immediate of `ADRP`.
    Adr,
    /// The 12-bit immediate of a load, store or `ADD`, scaled by the access size of a load or
    /// store.
    MachOLow12,
    /// The unscaled 12-bit immediate of `ADD`.
    Add,
    /// The 26-bit word offset of `B`/`BL`.
    JumpCall,
}

/// How a relocation's value is computed from the target and the place.
#[derive(Debug, Clone, Copy, PartialEq, Eq)]
pub enum RelocationKind {
    /// The target address.
    Absolute,
    /// The target address minus the place.
    Relative,
    /// The low part of the target address.
    AbsoluteLowPart,
    /// The GOT slot's address minus the place.
    GotRelative,
    /// The GOT slot's address.
    Got,
}

/// Where a relocation's value is stored.
#[derive(Debug, Clone, Copy, PartialEq, Eq)]
pub enum RelocationSize {
    /// The low bytes of the value, little-endian.
    ByteSize(usize),
    /// Bits `start..end` of the value, placed into an instruction field.
    BitMask { start: u32, end: u32, instruction: AArch64Instruction },
}

/// The signed values a relocation can hold, both ends included.
#[derive(Debug, Clone, Copy, PartialEq, Eq)]
pub struct AllowedRange {
    pub min: i64,
    pub max: i64,
}

/// Everything the writer needs to know about one relocation type.
#[derive(Debug, Clone, Copy, PartialEq, Eq)]
pub struct RelocationKindInfo {
    pub kind: RelocationKind,
    pub size: RelocationSize,
    /// For page relocations: the page-offset bits cleared from both target and place.
    pub page_mask: Option<u64>,
    pub range: AllowedRange,
    pub alignment: u64,
    pub bias: u64,
    /// Whether an out-of-range value may be redirected to a branch island.
    pub thunkable: bool,
}

/// Why a relocation could not be interpreted or written.
#[derive(Debug, Clone, Copy, PartialEq, Eq)]
pub enum RelocationError {
    /// The relocation names a section rather than a symbol.
    NotExternal,
    /// The PC-relative bit is not the one the type requires.
    PcRelMismatch,
    /// The length field is not the one the type requires.
    LengthMismatch,
    /// An addend record reached the writer without its relocation.
    UnpairedAddend,
    /// A subtractor record reached the writer without its unsigned record.
    UnpairedSubtractor,
    /// arm64e signed pointers are not supported.
    AuthenticatedPointer,
    /// The relocation type is not an ARM64 type.
    UnknownType,
    /// A stub's target is 4 GiB or more past the stub's page.
    TargetTooFar,
    /// A stub's target lies before the stub's page.
    TargetBeforePage,
    /// The value is not a multiple of the required alignment.
    Misaligned,
    /// The value does not fit the field.
    OutOfRange,
    /// The relocation's storage extends past the section.
    OutsideSection,
    /// A TLVP page-offset relocation does not sit on a 64-bit unsigned-immediate `LDR`.
    NotAnLdr,
    /// A thread-local target lies before the TLS storage.
    BeforeTlsStorage,
    /// A branch is out of range and no island was allocated for its target.
    NoBranchIsland,
    /// The island allocated for a branch's target has no address.
    BranchIslandUnassigned,
    /// A thread-local variable descriptor points into TLS storage, but the output has none.
    NoTlsStorage,
    /// A branch to an Objective-C selector-send symbol is not a plain `BRANCH26`.
    ObjcNotPlainBranch,
    /// A selector-send branch has no synthesized stub.
    NoObjcStub,
    /// An address computation overflows.
    AddressOverflow,
    /// A GOT relocation's symbol has no GOT slot.
    NoGotSlot,
    /// A TLVP relocation through a dynamic descriptor has no thread-variable pointer slot.
    NoTlvpSlot,
    /// The relocation's length field gives no width.
    InvalidWidth,
}

/// The range of a signed field holding values from `-half` to `half - 1`.
pub open spec fn signed_range(half: i64) -> AllowedRange {
    AllowedRange { min: -half as i64, max: (half - 1) as i64 }
}

/// Half the span of a signed 28-bit field.
pub const HALF_28_BITS: i64 = 0x800_0000;
/// Half the span of a signed 32-bit field.
pub const HALF_32_BITS: i64 = 0x8000_0000;
/// Half the span of a signed 33-bit field.
pub const HALF_33_BITS: i64 = 0x1_0000_0000;

/// The range that accepts every value.
pub open spec fn no_check() -> AllowedRange {
    AllowedRange { min: i64::MIN, max: i64::MAX }
}

impl AllowedRange {
    /// Whether `value` lies in the range.
    pub open spec fn spec_contains(self, value: i64) -> bool {
        self.min <= value <= self.max
    }

    /// Whether `value` lies in the range.
    pub fn contains(&self, value: i64) -> (r: bool)
        ensures
            r == self.spec_contains(value),
    {
        self.min <= value && value <= self.max
    }
}

/// Whether a record has the fixed fields of a relocation type that is applied on its own: it
/// names a symbol and has the given PC-relative bit and length.
pub open spec fn standalone_valid(rel: RelocationInfo, r_pcrel: bool, r_length: u8) -> bool {
    rel.r_extern && rel.r_pcrel == r_pcrel && rel.r_length == r_length
}

/// The first fixed field that differs from what the type requires.
pub open spec fn spec_validate_standalone(rel: RelocationInfo, r_pcrel: bool, r_length: u8) -> Result<
    (),
    RelocationError,
> {
    if !rel.r_extern {
        Err(RelocationError::NotExternal)
    } else if rel.r_pcrel != r_pcrel {
        Err(RelocationError::PcRelMismatch)
    } else if rel.r_length != r_length {
        Err(RelocationError::LengthMismatch)
    } else {
        Ok(())
    }
}

/// Checks the fixed fields of a relocation type that is applied on its own. Mach-O's length
/// field gives the storage width, not the instruction width.
pub fn validate_standalone_relocation(
    rel: RelocationInfo,
    _name: &str,
    r_pcrel: bool,
    r_length: u8,
) -> (r: Result<(), RelocationError>)
    ensures
        r == spec_validate_standalone(rel, r_pcrel, r_length),
        r is Ok <==> standalone_valid(rel, r_pcrel, r_length),
{
    if !rel.r_extern {
        return Err(RelocationError::NotExternal);
    }
    if rel.r_pcrel != r_pcrel {
        return Err(RelocationError::PcRelMismatch);
    }
    if rel.r_length != r_length {
        return Err(RelocationError::LengthMismatch);
    }
    Ok(())
}

/// The writer's description of a relocation type, with the fixed fields it must have.
pub open spec fn kind_info(
    kind: RelocationKind,
    size: RelocationSize,
    page_mask: Option<u64>,
    range: AllowedRange,
    alignment: u64,
    thunkable: bool,
) -> RelocationKindInfo {
    RelocationKindInfo { kind, size, page_mask, range, alignment, bias: 0, thunkable }
}

/// What each ARM64 relocation type means: the fixed fields it must have and how its value is
/// computed and stored. Addend and subtractor records must have been paired with their
/// relocation before this point; arm64e signed pointers are refused.
pub open spec fn spec_relocation_from_raw(rel: RelocationInfo) -> Result<
    RelocationKindInfo,
    RelocationError,
> {
    let page = RelocationSize::BitMask { start: 12, end: 33, instruction: AArch64Instruction::Adr };
    let low12 = RelocationSize::BitMask {
        start: 0,
        end: 12,
        instruction: AArch64Instruction::MachOLow12,
    };
    let checked = |pcrel: bool, length: u8, info: RelocationKindInfo|
        match spec_validate_standalone(rel, pcrel, length) {
            Ok(_) => Ok(info),
            Err(e) => Err(e),
        };
    if rel.r_type == ARM64_RELOC_UNSIGNED {
        checked(
            false,
            3,
            kind_info(RelocationKind::Absolute, RelocationSize::ByteSize(8), None, no_check(), 1, false),
        )
    } else if rel.r_type == ARM64_RELOC_BRANCH26 {
        checked(
            true,
            2,
            kind_info(
                RelocationKind::Relative,
                RelocationSize::BitMask { start: 2, end: 28, instruction: AArch64Instruction::JumpCall },
                None,
                signed_range(HALF_28_BITS),
                4,
                true,
            ),
        )
    } else if rel.r_type == ARM64_RELOC_PAGE21 || rel.r_type == ARM64_RELOC_TLVP_LOAD_PAGE21 {
        checked(
            true,
            2,
            kind_info(RelocationKind::Relative, page, Some(PAGE_MASK_4KB), signed_range(HALF_33_BITS), 1, false),
        )
    } else if rel.r_type == ARM64_RELOC_PAGEOFF12 {
        checked(false, 2, kind_info(RelocationKind::AbsoluteLowPart, low12, None, no_check(), 1, false))
    } else if rel.r_type == ARM64_RELOC_GOT_LOAD_PAGE21 {
        checked(
            true,
            2,
            kind_info(RelocationKind::GotRelative, page, Some(PAGE_MASK_4KB), signed_range(HALF_33_BITS), 1, false),
        )
    } else if rel.r_type == ARM64_RELOC_GOT_LOAD_PAGEOFF12 {
        checked(false, 2, kind_info(RelocationKind::Got, low12, None, no_check(), 1, false))
    } else if rel.r_type == ARM64_RELOC_POINTER_TO_GOT && rel.r_pcrel {
        checked(
            true,
            2,
            kind_info(RelocationKind::GotRelative, RelocationSize::ByteSize(4), None, signed_range(HALF_32_BITS), 1, false),
        )
    } else if rel.r_type == ARM64_RELOC_POINTER_TO_GOT {
        checked(false, 3, kind_info(RelocationKind::Got, RelocationSize::ByteSize(8), None, no_check(), 1, false))
    } else if rel.r_type == ARM64_RELOC_ADDEND {
        Err(RelocationError::UnpairedAddend)
    } else if rel.r_type == ARM64_RELOC_SUBTRACTOR {
        Err(RelocationError::UnpairedSubtractor)
    } else if rel.r_type == ARM64_RELOC_TLVP_LOAD_PAGEOFF12 {
        checked(
            false,
            2,
            kind_info(
                RelocationKind::AbsoluteLowPart,
                RelocationSize::BitMask { start: 0, end: 12, instruction: AArch64Instruction::Add },
                None,
                no_check(),
                1,
                false,
            ),
        )
    } else if rel.r_type == ARM64_RELOC_AUTHENTICATED_POINTER {
        Err(RelocationError::AuthenticatedPointer)
    } else {
        Err(RelocationError::UnknownType)
    }
}

/// The range of a signed field holding values from `-half` to `half - 1`.
fn signed_range_of(half: i64) -> (r: AllowedRange)
    requires
        0 < half <= HALF_33_BITS,
    ensures
        r == signed_range(half),
{
    AllowedRange { min: -half, max: half - 1 }
}

/// The range that accepts every value.
fn no_check_range() -> (r: AllowedRange)
    ensures
        r == no_check(),
{
    AllowedRange { min: i64::MIN, max: i64::MAX }
}

/// The writer's description of a relocation type after its fixed fields were checked.
fn checked_info(
    rel: RelocationInfo,
    name: &str,
    r_pcrel: bool,
    r_length: u8,
    info: RelocationKindInfo,
) -> (r: Result<RelocationKindInfo, RelocationError>)
    ensures
        r == match spec_validate_standalone(rel, r_pcrel, r_length) {
            Ok(_) => Ok::<RelocationKindInfo, RelocationError>(info),
            Err(e) => Err(e),
        },
{
    validate_standalone_relocation(rel, name, r_pcrel, r_length)?;
    Ok(info)
}

/// What an ARM64 relocation record means: the fixed fields it must have, how its value is
/// computed, which signed range it must fit and where it is stored. Only `BRANCH26` may be
/// redirected to a branch island.
pub fn relocation_from_raw(rel: RelocationInfo) -> (r: Result<RelocationKindInfo, RelocationError>)
    ensures
        r == spec_relocation_from_raw(rel),
{
    let page = RelocationSize::BitMask { start: 12, end: 33, instruction: AArch64Instruction::Adr };
    let low12 = RelocationSize::BitMask {
        start: 0,
        end: 12,
        instruction: AArch64Instruction::MachOLow12,
    };
    let r_type = rel.r_type;
    if r_type == ARM64_RELOC_UNSIGNED {
        checked_info(
            rel,
            "ARM64_RELOC_UNSIGNED",
            false,
            3,
            RelocationKindInfo {
                kind: RelocationKind::Absolute,
                size: RelocationSize::ByteSize(8),
                page_mask: None,
                range: no_check_range(),
                alignment: 1,
                bias: 0,
                thunkable: false,
            },
        )
    } else if r_type == ARM64_RELOC_BRANCH26 {
        checked_info(
            rel,
            "ARM64_RELOC_BRANCH26",
            true,
            2,
            RelocationKindInfo {
                kind: RelocationKind::Relative,
                size: RelocationSize::BitMask {
                    start: 2,
                    end: 28,
                    instruction: AArch64Instruction::JumpCall,
                },
                page_mask: None,
                range: signed_range_of(HALF_28_BITS),
                alignment: 4,
                bias: 0,
                thunkable: true,
            },
        )
    } else if r_type == ARM64_RELOC_PAGE21 || r_type == ARM64_RELOC_TLVP_LOAD_PAGE21 {
        checked_info(
            rel,
            "ARM64_RELOC_PAGE21",
            true,
            2,
            RelocationKindInfo {
                kind: RelocationKind::Relative,
                size: page,
                page_mask: Some(PAGE_MASK_4KB),
                range: signed_range_of(HALF_33_BITS),
                alignment: 1,
                bias: 0,
                thunkable: false,
            },
        )
    } else if r_type == ARM64_RELOC_PAGEOFF12 {
        checked_info(
            rel,
            "ARM64_RELOC_PAGEOFF12",
            false,
            2,
            RelocationKindInfo {
                kind: RelocationKind::AbsoluteLowPart,
                size: low12,
                page_mask: None,
                range: no_check_range(),
                alignment: 1,
                bias: 0,
                thunkable: false,
            },
        )
    } else if r_type == ARM64_RELOC_GOT_LOAD_PAGE21 {
        checked_info(
            rel,
            "ARM64_RELOC_GOT_LOAD_PAGE21",
            true,
            2,
            RelocationKindInfo {
                kind: RelocationKind::GotRelative,
                size: page,
                page_mask: Some(PAGE_MASK_4KB),
                range: signed_range_of(HALF_33_BITS),
                alignment: 1,
                bias: 0,
                thunkable: false,
            },
        )
    } else if r_type == ARM64_RELOC_GOT_LOAD_PAGEOFF12 {
        checked_info(
            rel,
            "ARM64_RELOC_GOT_LOAD_PAGEOFF12",
            false,
            2,
            RelocationKindInfo {
                kind: RelocationKind::Got,
                size: low12,
                page_mask: None,
                range: no_check_range(),
                alignment: 1,
                bias: 0,
                thunkable: false,
            },
        )
    } else if r_type == ARM64_RELOC_POINTER_TO_GOT && rel.r_pcrel {
        checked_info(
            rel,
            "ARM64_RELOC_POINTER_TO_GOT",
            true,
            2,
            RelocationKindInfo {
                kind: RelocationKind::GotRelative,
                size: RelocationSize::ByteSize(4),
                page_mask: None,
                range: signed_range_of(HALF_32_BITS),
                alignment: 1,
                bias: 0,
                thunkable: false,
            },
        )
    } else if r_type == ARM64_RELOC_POINTER_TO_GOT {
        checked_info(
            rel,
            "ARM64_RELOC_POINTER_TO_GOT",
            false,
            3,
            RelocationKindInfo {
                kind: RelocationKind::Got,
                size: RelocationSize::ByteSize(8),
                page_mask: None,
                range: no_check_range(),
                alignment: 1,
                bias: 0,
                thunkable: false,
            },
        )
    } else if r_type == ARM64_RELOC_ADDEND {
        Err(RelocationError::UnpairedAddend)
    } else if r_type == ARM64_RELOC_SUBTRACTOR {
        Err(RelocationError::UnpairedSubtractor)
    } else if r_type == ARM64_RELOC_TLVP_LOAD_PAGEOFF12 {
        checked_info(
            rel,
            "ARM64_RELOC_TLVP_LOAD_PAGEOFF12",
            false,
            2,
            RelocationKindInfo {
                kind: RelocationKind::AbsoluteLowPart,
                size: RelocationSize::BitMask {
                    start: 0,
                    end: 12,
                    instruction: AArch64Instruction::Add,
                },
                page_mask: None,
                range: no_check_range(),
                alignment: 1,
                bias: 0,
                thunkable: false,
            },
        )
    } else if r_type == ARM64_RELOC_AUTHENTICATED_POINTER {
        Err(RelocationError::AuthenticatedPointer)
    } else {
        Err(RelocationError::UnknownType)
    }
}

/// The scale of a load or store's 12-bit immediate: its access size in bytes as a power of two,
/// four for a 128-bit vector access, and zero for other instructions.
pub open spec fn low12_scale(insn: u32) -> u32 {
    if insn & 0x3b00_0000 == 0x3900_0000 {
        if insn & 0x0480_0000 == 0x0480_0000 {
            4
        } else {
            insn >> 30u32
        }
    } else {
        0
    }
}

/// `insn` with `value` placed into the field that `kind` names; other bits are kept.
pub open spec fn spec_insn_field(kind: AArch64Instruction, insn: u32, value: u64) -> u32 {
    match kind {
        AArch64Instruction::Adr => (insn & !0x60ff_ffe0u32) | (((value & 3) as u32) << 29u32) | ((((
        value >> 2u64) & 0x7_ffff) as u32) << 5u32),
        AArch64Instruction::MachOLow12 => (insn & !0x003f_fc00u32) | (((((value & 0xfff) >> (
        low12_scale(insn) as u64)) as u32)) << 10u32),
        AArch64Instruction::Add => (insn & !0x003f_fc00u32) | (((value & 0xfff) as u32) << 10u32),
        AArch64Instruction::JumpCall => (insn & !0x03ff_ffffu32) | ((value & 0x03ff_ffff) as u32),
    }
}

/// Placing a value into an instruction field puts the value's bits where the AArch64 encoding
/// reads them and keeps every other bit: `B`/`BL` take the low 26 bits in bits 0..26; `ADD`
/// (immediate) takes the low 12 bits in bits 10..22; `ADR`/`ADRP` take the low two bits in
/// `immlo` (bits 29..31) and the next 19 in `immhi` (bits 5..24); a load or store takes the low
/// 12 bits divided by its access size in bits 10..22.
pub proof fn lemma_insn_field_encoding(kind: AArch64Instruction, insn: u32, value: u64)
    ensures
        ({
            let r = spec_insn_field(kind, insn, value);
            match kind {
                AArch64Instruction::JumpCall => r & 0x03ff_ffff == (value & 0x03ff_ffff) as u32
                    && r & 0xfc00_0000 == insn & 0xfc00_0000,
                AArch64Instruction::Add => (r >> 10u32) & 0xfff == (value & 0xfff) as u32 && r
                    & 0xffc0_03ff == insn & 0xffc0_03ff,
                AArch64Instruction::Adr => (r >> 29u32) & 3 == (value & 3) as u32 && (r >> 5u32)
                    & 0x7_ffff == ((value >> 2u64) & 0x7_ffff) as u32 && r & 0x9f00_001f == insn
                    & 0x9f00_001f,
                AArch64Instruction::MachOLow12 => (r >> 10u32) & 0xfff == ((value & 0xfff) >> (
                low12_scale(insn) as u64)) as u32 && r & 0xffc0_03ff == insn & 0xffc0_03ff,
            }
        }),
{
    let r = spec_insn_field(kind, insn, value);
    match kind {
        AArch64Instruction::JumpCall => {
            assert(r & 0x03ff_ffff == (value & 0x03ff_ffff) as u32 && r & 0xfc00_0000 == insn
                & 0xfc00_0000) by (bit_vector)
                requires
                    r == (insn & !0x03ff_ffffu32) | ((value & 0x03ff_ffff) as u32),
            ;
        },
        AArch64Instruction::Add => {
            assert((r >> 10u32) & 0xfff == (value & 0xfff) as u32 && r & 0xffc0_03ff == insn
                & 0xffc0_03ff) by (bit_vector)
                requires
                    r == (insn & !0x003f_fc00u32) | (((value & 0xfff) as u32) << 10u32),
            ;
        },
        AArch64Instruction::Adr => {
            assert((r >> 29u32) & 3 == (value & 3) as u32 && (r >> 5u32) & 0x7_ffff == ((value
                >> 2u64) & 0x7_ffff) as u32 && r & 0x9f00_001f == insn & 0x9f00_001f) by (bit_vector)
                requires
                    r == (insn & !0x60ff_ffe0u32) | (((value & 3) as u32) << 29u32) | ((((value
                        >> 2u64) & 0x7_ffff) as u32) << 5u32),
            ;
        },
        AArch64Instruction::MachOLow12 => {
            let scale = low12_scale(insn);
            assert(scale <= 4) by (bit_vector)
                requires
                    scale == (if insn & 0x3b00_0000 == 0x3900_0000 {
                        if insn & 0x0480_0000 == 0x0480_0000 {
                            4
                        } else {
                            insn >> 30u32
                        }
                    } else {
                        0
                    }),
            ;
            assert((r >> 10u32) & 0xfff == ((value & 0xfff) >> (scale as u64)) as u32 && r
                & 0xffc0_03ff == insn & 0xffc0_03ff) by (bit_vector)
                requires
                    scale <= 4,
                    r == (insn & !0x003f_fc00u32) | (((((value & 0xfff) >> (scale as u64))
                        as u32)) << 10u32),
            ;
        },
    }
}

/// Places `value` into the field of `insn` that `kind` names.
pub fn encode_instruction(kind: AArch64Instruction, insn: u32, value: u64) -> (r: u32)
    ensures
        r == spec_insn_field(kind, insn, value),
{
    match kind {
        AArch64Instruction::Adr => (insn & !0x60ff_ffe0u32) | (((value & 3) as u32) << 29u32) | (((
        (value >> 2u64) & 0x7_ffff) as u32) << 5u32),
        AArch64Instruction::MachOLow12 => {
            let scale: u32 = if insn & 0x3b00_0000 == 0x3900_0000 {
                if insn & 0x0480_0000 == 0x0480_0000 {
                    4
                } else {
                    insn >> 30u32
                }
            } else {
                0
            };
            assert(scale <= 4) by (bit_vector)
                requires
                    scale == (if insn & 0x3b00_0000 == 0x3900_0000 {
                        if insn & 0x0480_0000 == 0x0480_0000 {
                            4
                        } else {
                            insn >> 30u32
                        }
                    } else {
                        0
                    }),
            ;
            (insn & !0x003f_fc00u32) | (((((value & 0xfff) >> (scale as u64)) as u32)) << 10u32)
        },
        AArch64Instruction::Add => (insn & !0x003f_fc00u32) | (((value & 0xfff) as u32) << 10u32),
        AArch64Instruction::JumpCall => (insn & !0x03ff_ffffu32) | ((value & 0x03ff_ffff) as u32),
    }
}

/// The first four bytes with `value` placed into the instruction they hold.
pub open spec fn patched_instruction(bytes: Seq<u8>, kind: AArch64Instruction, value: u64) -> Seq<
    u8,
> {
    splice(bytes, 0, u32_le_bytes(spec_insn_field(kind, le_u32(bytes, 0) as u32, value)))
}

/// Places `value` into the instruction field that `kind` names, in the little-endian instruction
/// at the start of `out`.
pub fn write_instruction_value(kind: AArch64Instruction, value: u64, out: &mut [u8])
    requires
        old(out)@.len() >= 4,
    ensures
        final(out)@ == patched_instruction(old(out)@, kind, value),
{
    let insn = read_u32_le(out, 0);
    let patched = encode_instruction(kind, insn, value);
    write_u32_at(out, 0, patched);
}

/// Bits `start..end` of `value`, shifted down.
pub open spec fn extract_bits(value: u64, start: u32, end: u32) -> u64 {
    (value >> (start as u64)) & (((1u64 << ((end - start) as u64)) - 1) as u64)
}

/// The bytes of a relocation's storage after `value` is written: the low bytes of the value for
/// a data relocation, or an instruction with the value's selected bits in its field.
pub open spec fn spec_write_relocation(info: RelocationKindInfo, value: u64, out: Seq<u8>) -> Result<
    Seq<u8>,
    RelocationError,
> {
    if value & ((info.alignment - 1) as u64) != 0 {
        Err(RelocationError::Misaligned)
    } else if !info.range.spec_contains(value as i64) {
        Err(RelocationError::OutOfRange)
    } else {
        match info.size {
            RelocationSize::ByteSize(n) => if n > out.len() {
                Err(RelocationError::OutsideSection)
            } else {
                Ok(splice(out, 0, crate::bytes::u64_le_bytes(value).take(n as int)))
            },
            RelocationSize::BitMask { start, end, instruction } => if out.len() < 4 {
                Err(RelocationError::OutsideSection)
            } else {
                Ok(patched_instruction(out, instruction, extract_bits(value, start, end)))
            },
        }
    }
}

/// A `BRANCH26` relocation is a PC-relative branch: the value (target minus place) must be a
/// multiple of four within ±128 MiB, and writing it puts the value divided by four into the low
/// 26 bits of the `B`/`BL` instruction, keeping its opcode bits.
pub proof fn lemma_branch26_write(rel: RelocationInfo, value: u64, out: Seq<u8>)
    requires
        rel.r_type == 2u8,
        spec_relocation_from_raw(rel) is Ok,
        spec_write_relocation(spec_relocation_from_raw(rel)->Ok_0, value, out) is Ok,
    ensures
        ({
            let info = spec_relocation_from_raw(rel)->Ok_0;
            let o = spec_write_relocation(info, value, out)->Ok_0;
            &&& info.kind is Relative
            &&& value % 4 == 0
            &&& -0x800_0000 <= value as i64 <= 0x7ff_ffff
            &&& (le_u32(o, 0) as u32) & 0x03ff_ffff == ((value >> 2u64) & 0x3ff_ffff) as u32
            &&& (le_u32(o, 0) as u32) & 0xfc00_0000 == (le_u32(out, 0) as u32) & 0xfc00_0000
            &&& o.subrange(4, o.len() as int) == out.subrange(4, out.len() as int)
        }),
{
    let info = spec_relocation_from_raw(rel)->Ok_0;
    let x = extract_bits(value, 2, 28);
    let insn = le_u32(out, 0) as u32;
    let w = spec_insn_field(AArch64Instruction::JumpCall, insn, x);
    let o = spec_write_relocation(info, value, out)->Ok_0;
    assert(o == splice(out, 0, u32_le_bytes(w)));
    assert(o.subrange(0, 4) =~= u32_le_bytes(w));
    lemma_le_u32_at(o, 0, w);
    lemma_insn_field_encoding(AArch64Instruction::JumpCall, insn, x);
    assert(o.subrange(4, o.len() as int) =~= out.subrange(4, out.len() as int));
    assert(x & 0x03ff_ffff == (value >> 2u64) & 0x3ff_ffff && (value & 3 == 0 <==> value % 4 == 0))
        by (bit_vector)
        requires
            x == (value >> 2u64) & (((1u64 << 26u64) - 1) as u64),
    ;
}

/// A `PAGE21` relocation is an `ADRP`: the value is the distance between the target's and the
/// place's 4 KiB pages, within ±4 GiB, and writing it puts bits 12..14 of the value into `immlo`
/// and bits 14..33 into `immhi`, keeping the instruction's other bits.
pub proof fn lemma_page21_write(rel: RelocationInfo, value: u64, out: Seq<u8>)
    requires
        rel.r_type == 3u8,
        spec_relocation_from_raw(rel) is Ok,
        spec_write_relocation(spec_relocation_from_raw(rel)->Ok_0, value, out) is Ok,
    ensures
        ({
            let info = spec_relocation_from_raw(rel)->Ok_0;
            let o = spec_write_relocation(info, value, out)->Ok_0;
            &&& info.kind is Relative
            &&& info.page_mask == Some(0xfffu64)
            &&& -0x1_0000_0000 <= value as i64 <= 0xffff_ffff
            &&& ((le_u32(o, 0) as u32) >> 29u32) & 3 == ((value >> 12u64) & 3) as u32
            &&& ((le_u32(o, 0) as u32) >> 5u32) & 0x7_ffff == ((value >> 14u64) & 0x7_ffff) as u32
            &&& (le_u32(o, 0) as u32) & 0x9f00_001f == (le_u32(out, 0) as u32) & 0x9f00_001f
            &&& o.subrange(4, o.len() as int) == out.subrange(4, out.len() as int)
        }),
{
    let info = spec_relocation_from_raw(rel)->Ok_0;
    let x = extract_bits(value, 12, 33);
    let insn = le_u32(out, 0) as u32;
    let w = spec_insn_field(AArch64Instruction::Adr, insn, x);
    let o = spec_write_relocation(info, value, out)->Ok_0;
    assert(o == splice(out, 0, u32_le_bytes(w)));
    assert(o.subrange(0, 4) =~= u32_le_bytes(w));
    lemma_le_u32_at(o, 0, w);
    lemma_insn_field_encoding(AArch64Instruction::Adr, insn, x);
    assert(o.subrange(4, o.len() as int) =~= out.subrange(4, out.len() as int));
    assert(x & 3 == (value >> 12u64) & 3 && (x >> 2u64) & 0x7_ffff == (value >> 14u64) & 0x7_ffff)
        by (bit_vector)
        requires
            x == (value >> 12u64) & (((1u64 << 21u64) - 1) as u64),
    ;
}

/// Writes a relocation's value into its storage at the start of `out`, after checking the
/// value's alignment and range.
pub fn write_relocation_value(info: &RelocationKindInfo, value: u64, out: &mut [u8]) -> (r: Result<
    (),
    RelocationError,
>)
    requires
        info.alignment >= 1,
        info.size matches RelocationSize::ByteSize(n) ==> n <= 8,
        info.size matches RelocationSize::BitMask { start, end, instruction } ==> start < end
            <= 64 && end - start < 64,
    ensures
        match spec_write_relocation(*info, value, old(out)@) {
            Ok(bytes) => r is Ok && final(out)@ == bytes,
            Err(e) => r == Err::<(), RelocationError>(e) && final(out)@ == old(out)@,
        },
{
    if value & (info.alignment - 1) != 0 {
        return Err(RelocationError::Misaligned);
    }
    if !info.range.contains(value as i64) {
        return Err(RelocationError::OutOfRange);
    }
    match info.size {
        RelocationSize::ByteSize(n) => {
            if n > out.len() {
                return Err(RelocationError::OutsideSection);
            }
            let ghost original = out@;
            let mut i: usize = 0;
            while i < n
                invariant
                    n <= 8,
                    n <= out@.len(),
                    out@.len() == original.len(),
                    0 <= i <= n,
                    forall|j: int| 0 <= j < i ==> #[trigger] out@[j] == crate::bytes::u64_le_bytes(value)[j],
                    forall|j: int| i <= j < out@.len() ==> #[trigger] out@[j] == original[j],
                decreases n - i,
            {
                let byte = ((value >> ((8 * i) as u64)) & 0xff) as u8;
                proof {
                    lemma_le_byte(value, i as int);
                }
                out[i] = byte;
                i = i + 1;
            }
            assert(out@ =~= splice(original, 0, crate::bytes::u64_le_bytes(value).take(n as int)));
            Ok(())
        },
        RelocationSize::BitMask { start, end, instruction } => {
            if out.len() < 4 {
                return Err(RelocationError::OutsideSection);
            }
            let width = (end - start) as u64;
            assert(1u64 << width >= 1) by (bit_vector)
                requires
                    width < 64,
            ;
            let field = (value >> (start as u64)) & ((1u64 << width) - 1);
            write_instruction_value(instruction, field, out);
            Ok(())
        },
    }
}

/// Byte `i` of a value's little-endian encoding is the value shifted down by `8 * i` bits.
proof fn lemma_le_byte(value: u64, i: int)
    requires
        0 <= i < 8,
    ensures
        ((value >> ((8 * i) as u64)) & 0xff) as u8 == crate::bytes::u64_le_bytes(value)[i],
{
    let lo = (value % 4294967296) as u32;
    let hi = (value / 4294967296) as u32;
    let s = (8 * i) as u64;
    assert(lo == value & 0xffff_ffff) by (bit_vector)
        requires
            lo == (value % 4294967296) as u32,
    ;
    assert(hi == value >> 32u64) by (bit_vector)
        requires
            hi == (value / 4294967296) as u32,
    ;
    if i == 0 {
        assert(((value >> 0u64) & 0xff) as u8 == (lo % 256) as u8) by (bit_vector)
            requires
                lo == value & 0xffff_ffff,
        ;
    } else if i == 1 {
        assert(((value >> 8u64) & 0xff) as u8 == ((lo / 256) % 256) as u8) by (bit_vector)
            requires
                lo == value & 0xffff_ffff,
        ;
    } else if i == 2 {
        assert(((value >> 16u64) & 0xff) as u8 == ((lo / 65536) % 256) as u8) by (bit_vector)
            requires
                lo == value & 0xffff_ffff,
        ;
    } else if i == 3 {
        assert(((value >> 24u64) & 0xff) as u8 == (lo / 16777216) as u8) by (bit_vector)
            requires
                lo == value & 0xffff_ffff,
        ;
    } else if i == 4 {
        assert(((value >> 32u64) & 0xff) as u8 == (hi % 256) as u8) by (bit_vector)
            requires
                hi == value >> 32u64,
        ;
    } else if i == 5 {
        assert(((value >> 40u64) & 0xff) as u8 == ((hi / 256) % 256) as u8) by (bit_vector)
            requires
                hi == value >> 32u64,
        ;
    } else if i == 6 {
        assert(((value >> 48u64) & 0xff) as u8 == ((hi / 65536) % 256) as u8) by (bit_vector)
            requires
                hi == value >> 32u64,
        ;
    } else {
        assert(((value >> 56u64) & 0xff) as u8 == (hi / 16777216) as u8) by (bit_vector)
            requires
                hi == value >> 32u64,
        ;
    }
}

/// `ADRP x16, 0`.
pub const ADRP_X16: u32 = 0x9000_0010;
/// `LDR x16, [x16, #0]`.
pub const LDR_X16_X16: u32 = 0xf940_0210;
/// `ADD x16, x16, #0`.
pub const ADD_X16_X16: u32 = 0x9100_0210;
/// `BR x16`.
pub const BR_X16: u32 = 0xd61f_0200;

/// `a - b` modulo 2^64.
pub open spec fn wrap_sub(a: u64, b: u64) -> u64 {
    if a >= b {
        (a - b) as u64
    } else {
        (a - b + 0x1_0000_0000_0000_0000) as u64
    }
}

/// `a + b` modulo 2^64.
pub open spec fn wrap_add(a: u64, b: u64) -> u64 {
    if a + b <= u64::MAX {
        (a + b) as u64
    } else {
        (a + b - 0x1_0000_0000_0000_0000) as u64
    }
}

/// The start of the 4 KiB page holding `address`.
pub open spec fn page_of(address: u64) -> u64 {
    address & !PAGE_MASK_4KB
}

/// A dyld symbol stub: `ADRP x16` to the GOT slot's page, `LDR x16` from the slot's page offset,
/// `BR x16`.
pub open spec fn stub_bytes(offset: u64) -> Seq<u8> {
    u32_le_bytes(spec_insn_field(AArch64Instruction::Adr, ADRP_X16, offset / SIZE_4KB))
        + u32_le_bytes(spec_insn_field(AArch64Instruction::MachOLow12, LDR_X16_X16, offset & PAGE_MASK_4KB))
        + u32_le_bytes(BR_X16)
}

/// A dyld stub for a GOT slot `offset` bytes past the stub's page is `ADRP x16` whose 21-bit
/// page immediate (`immhi:immlo`) is `offset / 4096`, then `LDR x16, [x16, #imm]` whose scaled
/// immediate is the slot's page offset divided by eight, then `BR x16`; the register and opcode
/// bits of the template are kept.
pub proof fn lemma_stub_bytes_fields(offset: u64)
    ensures
        ({
            let b = stub_bytes(offset);
            let adrp = le_u32(b, 0) as u32;
            let ldr = le_u32(b, 4) as u32;
            &&& b.len() == 12
            &&& (adrp >> 29u32) & 3 == ((offset / 4096) & 3) as u32
            &&& (adrp >> 5u32) & 0x7_ffff == (((offset / 4096) >> 2u64) & 0x7_ffff) as u32
            &&& adrp & 0x9f00_001f == 0x9000_0010
            &&& (ldr >> 10u32) & 0xfff == ((offset & 0xfff) >> 3u64) as u32
            &&& ldr & 0xffc0_03ff == 0xf940_0210
            &&& le_u32(b, 8) == 0xd61f_0200
        }),
{
    let a = spec_insn_field(AArch64Instruction::Adr, ADRP_X16, offset / SIZE_4KB);
    let l = spec_insn_field(AArch64Instruction::MachOLow12, LDR_X16_X16, offset & PAGE_MASK_4KB);
    let b = stub_bytes(offset);
    assert(b.subrange(0, 4) =~= u32_le_bytes(a));
    assert(b.subrange(4, 8) =~= u32_le_bytes(l));
    assert(b.subrange(8, 12) =~= u32_le_bytes(BR_X16));
    lemma_le_u32_at(b, 0, a);
    lemma_le_u32_at(b, 4, l);
    lemma_le_u32_at(b, 8, BR_X16);
    lemma_insn_field_encoding(AArch64Instruction::Adr, ADRP_X16, offset / SIZE_4KB);
    lemma_insn_field_encoding(AArch64Instruction::MachOLow12, LDR_X16_X16, offset & PAGE_MASK_4KB);
    assert(low12_scale(0xf940_0210u32) == 3 && 0xf940_0210u32 & 0xffc0_03ff == 0xf940_0210u32
        && 0x9000_0010u32 & 0x9f00_001f == 0x9000_0010u32 && (offset & 0xfff) & 0xfff == offset & 0xfff)
        by (bit_vector);
}

/// The stub template before its immediates are filled in.
pub open spec fn stub_template() -> Seq<u8> {
    u32_le_bytes(ADRP_X16) + u32_le_bytes(LDR_X16_X16) + u32_le_bytes(BR_X16)
}

/// Writes three instruction words.
fn write_three_words(out: &mut [u8], a: u32, b: u32, c: u32)
    requires
        old(out)@.len() == 12,
    ensures
        final(out)@ == u32_le_bytes(a) + u32_le_bytes(b) + u32_le_bytes(c),
{
    write_u32_at(out, 0, a);
    write_u32_at(out, 4, b);
    write_u32_at(out, 8, c);
    assert(out@ =~= u32_le_bytes(a) + u32_le_bytes(b) + u32_le_bytes(c));
}

/// Writes the dyld stub at `plt_address` that jumps through the GOT slot at `got_address`.
/// Fails, leaving the bare template, when the slot is 4 GiB or more past the stub's page.
pub fn write_plt_entry(plt_entry: &mut [u8], got_address: u64, plt_address: u64) -> (r: Result<
    (),
    RelocationError,
>)
    requires
        old(plt_entry)@.len() == PLT_ENTRY_SIZE,
    ensures
        ({
            let offset = wrap_sub(got_address, page_of(plt_address));
            &&& offset >= 0x1_0000_0000 ==> r == Err::<(), RelocationError>(
                RelocationError::TargetTooFar,
            ) && final(plt_entry)@ == stub_template()
            &&& offset < 0x1_0000_0000 ==> r is Ok && final(plt_entry)@ == stub_bytes(offset)
        }),
{
    write_three_words(plt_entry, ADRP_X16, LDR_X16_X16, BR_X16);
    let plt_page_address = plt_address & !PAGE_MASK_4KB;
    let offset = got_address.wrapping_sub(plt_page_address);
    if offset >= 0x1_0000_0000 {
        return Err(RelocationError::TargetTooFar);
    }
    let adrp = encode_instruction(AArch64Instruction::Adr, ADRP_X16, offset / SIZE_4KB);
    let ldr = encode_instruction(AArch64Instruction::MachOLow12, LDR_X16_X16, offset & PAGE_MASK_4KB);
    write_three_words(plt_entry, adrp, ldr, BR_X16);
    Ok(())
}

/// The page delta of a branch island's `ADRP`: the distance in pages from the island's page to
/// the target's page, as a 21-bit two's-complement field.
pub open spec fn island_page_delta(thunk_address: u64, target_address: u64) -> u64 {
    (((target_address >> 12u64) as int - (thunk_address >> 12u64) as int) % 0x20_0000) as u64
}

/// A branch island: `ADRP x16` to the target's page, `ADD x16` its page offset, `BR x16`.
pub open spec fn thunk_bytes(thunk_address: u64, target_address: u64) -> Seq<u8> {
    u32_le_bytes(
        spec_insn_field(
            AArch64Instruction::Adr,
            ADRP_X16,
            island_page_delta(thunk_address, target_address),
        ),
    ) + u32_le_bytes(spec_insn_field(AArch64Instruction::Add, ADD_X16_X16, target_address & PAGE_MASK_4KB))
        + u32_le_bytes(BR_X16)
}

/// Writes the range-extension island at `thunk_address` that reaches `target_address`.
pub fn write_thunk(thunk_address: u64, target_address: u64, buf: &mut [u8])
    requires
        old(buf)@.len() == THUNK_SIZE,
    ensures
        final(buf)@ == thunk_bytes(thunk_address, target_address),
{
    let thunk_page = thunk_address >> 12u64;
    let target_page = target_address >> 12u64;
    let page_count = target_page.wrapping_sub(thunk_page) & 0x1f_ffff;
    proof {
        let d = target_page.wrapping_sub(thunk_page);
        assert(d == wrap_sub(target_page, thunk_page));
        assert(d & 0x1f_ffff == d % 0x20_0000) by (bit_vector);
        assert(page_count == island_page_delta(thunk_address, target_address));
    }
    let adrp = encode_instruction(AArch64Instruction::Adr, ADRP_X16, page_count);
    let add = encode_instruction(AArch64Instruction::Add, ADD_X16_X16, target_address & PAGE_MASK_4KB);
    write_three_words(buf, adrp, add, BR_X16);
}

/// A 64-bit unsigned-immediate `LDR` under its mask.
pub const LDR_X_UNSIGNED_IMMEDIATE: u32 = 0xf940_0000;
/// The opcode bits of a 64-bit unsigned-immediate `LDR`.
pub const LDR_X_UNSIGNED_IMMEDIATE_MASK: u32 = 0xffc0_0000;
/// A 64-bit `ADD` immediate with no operands.
pub const ADD_X_IMMEDIATE: u32 = 0x9100_0000;
/// The base and destination registers, shared by both encodings.
pub const REGISTER_OPERANDS_MASK: u32 = 0x0000_03ff;

/// The `ADD` that replaces a TLVP `LDR`: same registers, no immediate.
pub open spec fn tlvp_add(instruction: u32) -> u32 {
    ADD_X_IMMEDIATE | (instruction & REGISTER_OPERANDS_MASK)
}

/// Turns the 64-bit unsigned-immediate `LDR` at the start of `out` into an `ADD` with the same
/// registers, so that a TLVP sequence computes the descriptor's address instead of loading
/// through it. The immediate is dropped; the relocation fills in `ADD`'s.
pub fn rewrite_tlvp_load_as_add(out: &mut [u8]) -> (r: Result<(), RelocationError>)
    ensures
        old(out)@.len() < 4 ==> r == Err::<(), RelocationError>(RelocationError::OutsideSection)
            && final(out)@ == old(out)@,
        old(out)@.len() >= 4 && (le_u32(old(out)@, 0) as u32) & LDR_X_UNSIGNED_IMMEDIATE_MASK
            != LDR_X_UNSIGNED_IMMEDIATE ==> r == Err::<(), RelocationError>(
            RelocationError::NotAnLdr,
        ) && final(out)@ == old(out)@,
        old(out)@.len() >= 4 && (le_u32(old(out)@, 0) as u32) & LDR_X_UNSIGNED_IMMEDIATE_MASK
            == LDR_X_UNSIGNED_IMMEDIATE ==> r is Ok && final(out)@ == splice(
            old(out)@,
            0,
            u32_le_bytes(tlvp_add(le_u32(old(out)@, 0) as u32)),
        ),
{
    if out.len() < 4 {
        return Err(RelocationError::OutsideSection);
    }
    let instruction = read_u32_le(out, 0);
    if instruction & LDR_X_UNSIGNED_IMMEDIATE_MASK != LDR_X_UNSIGNED_IMMEDIATE {
        return Err(RelocationError::NotAnLdr);
    }
    let add = ADD_X_IMMEDIATE | (instruction & REGISTER_OPERANDS_MASK);
    write_u32_at(out, 0, add);
    Ok(())
}

/// Patches an `ADRP`/`LDR` pair of a stub at `stub_address` to reach `target_address`, which
/// must lie after the stub's page and less than 4 GiB from it.
pub fn write_objc_stub_address(
    stub_address: u64,
    target_address: u64,
    adrp: &mut [u8],
    ldr: &mut [u8],
) -> (r: Result<(), RelocationError>)
    requires
        old(adrp)@.len() >= 4,
        old(ldr)@.len() >= 4,
    ensures
        target_address < page_of(stub_address) ==> r == Err::<(), RelocationError>(
            RelocationError::TargetBeforePage,
        ) && final(adrp)@ == old(adrp)@ && final(ldr)@ == old(ldr)@,
        target_address >= page_of(stub_address) && target_address - page_of(stub_address)
            >= 0x1_0000_0000 ==> r == Err::<(), RelocationError>(RelocationError::TargetTooFar)
            && final(adrp)@ == old(adrp)@ && final(ldr)@ == old(ldr)@,
        target_address >= page_of(stub_address) && target_address - page_of(stub_address)
            < 0x1_0000_0000 ==> ({
            let offset = (target_address - page_of(stub_address)) as u64;
            &&& r is Ok
            &&& final(adrp)@ == patched_instruction(
                old(adrp)@,
                AArch64Instruction::Adr,
                offset / SIZE_4KB,
            )
            &&& final(ldr)@ == patched_instruction(
                old(ldr)@,
                AArch64Instruction::MachOLow12,
                offset & PAGE_MASK_4KB,
            )
        }),
{
    let page_address = stub_address & !PAGE_MASK_4KB;
    if target_address < page_address {
        return Err(RelocationError::TargetBeforePage);
    }
    let offset = target_address - page_address;
    if offset >= 0x1_0000_0000 {
        return Err(RelocationError::TargetTooFar);
    }
    write_instruction_value(AArch64Instruction::Adr, offset / SIZE_4KB, adrp);
    write_instruction_value(AArch64Instruction::MachOLow12, offset & PAGE_MASK_4KB, ldr);
    Ok(())
}

/// The offset of a thread-local variable within the image's TLS template.
pub fn tls_storage_offset(symbol_address: u64, tls_data_start: u64) -> (r: Result<
    u64,
    RelocationError,
>)
    ensures
        symbol_address >= tls_data_start ==> r == Ok::<u64, RelocationError>(
            (symbol_address - tls_data_start) as u64,
        ),
        symbol_address < tls_data_start ==> r == Err::<u64, RelocationError>(
            RelocationError::BeforeTlsStorage,
        ),
{
    match symbol_address.checked_sub(tls_data_start) {
        Some(offset) => Ok(offset),
        None => Err(RelocationError::BeforeTlsStorage),
    }
}

/// The masks applied to the target and the place: a page relocation clears the page-offset
/// bits of both; other relocations keep every bit.
pub open spec fn page_masks(page_mask: Option<u64>) -> (u64, u64) {
    match page_mask {
        Some(m) => (!m, !m),
        None => (u64::MAX, u64::MAX),
    }
}

/// The value of a relocation: for an absolute, low-part or GOT relocation the (masked) target;
/// for a relative or GOT-relative relocation the masked target minus the masked place.
pub open spec fn spec_relocation_value(info: RelocationKindInfo, target: u64, place: u64) -> u64 {
    let (target_mask, place_mask) = page_masks(info.page_mask);
    match info.kind {
        RelocationKind::Relative | RelocationKind::GotRelative => wrap_sub(
            target & target_mask,
            place & place_mask,
        ),
        _ => target & target_mask,
    }
}

/// A relative relocation's value is the distance from the (masked) place to the (masked)
/// target: adding it back to the place gives the target, modulo 2^64. Any other relocation's
/// value is the masked target itself.
pub proof fn lemma_relocation_value_relation(info: RelocationKindInfo, target: u64, place: u64)
    ensures
        ({
            let r = spec_relocation_value(info, target, place);
            let (target_mask, place_mask) = page_masks(info.page_mask);
            &&& (info.kind is Relative || info.kind is GotRelative) ==> wrap_add(r, place & place_mask)
                == target & target_mask
            &&& !(info.kind is Relative || info.kind is GotRelative) ==> r == target & target_mask
        }),
{
}

/// The value of a relocation whose target (symbol or GOT slot, plus addend) is `target` and
/// whose storage is at `place`.
pub fn relocation_value(info: &RelocationKindInfo, target: u64, place: u64) -> (r: u64)
    ensures
        r == spec_relocation_value(*info, target, place),
{
    let (target_mask, place_mask) = match info.page_mask {
        Some(m) => (!m, !m),
        None => (u64::MAX, u64::MAX),
    };
    match info.kind {
        RelocationKind::Relative | RelocationKind::GotRelative => (target & target_mask).wrapping_sub(
            place & place_mask,
        ),
        _ => target & target_mask,
    }
}

/// Whether a branch must go through an island: the type allows it and the direct value does
/// not fit.
pub fn needs_branch_island(info: &RelocationKindInfo, value: u64) -> (r: bool)
    ensures
        r == (info.thunkable && !info.range.spec_contains(value as i64)),
{
    info.thunkable && !info.range.contains(value as i64)
}

/// The value of a branch redirected to the island at `thunk_address`, or why even the island
/// is out of reach.
pub open spec fn spec_branch_island_value(info: RelocationKindInfo, thunk_address: u64, place: u64) -> Result<
    u64,
    RelocationError,
> {
    let (target_mask, place_mask) = page_masks(info.page_mask);
    let value = wrap_sub(wrap_add(thunk_address, info.bias) & target_mask, place & place_mask);
    if info.range.spec_contains(value as i64) {
        Ok(value)
    } else {
        Err(RelocationError::OutOfRange)
    }
}

/// The value of a branch redirected to the island at `thunk_address`; it fails when even the
/// island is out of reach.
pub fn branch_island_value(info: &RelocationKindInfo, thunk_address: u64, place: u64) -> (r:
    Result<u64, RelocationError>)
    ensures
        r == spec_branch_island_value(*info, thunk_address, place),
{
    let (target_mask, place_mask) = match info.page_mask {
        Some(m) => (!m, !m),
        None => (u64::MAX, u64::MAX),
    };
    let value = (thunk_address.wrapping_add(info.bias) & target_mask).wrapping_sub(
        place & place_mask,
    );
    if !info.range.contains(value as i64) {
        return Err(RelocationError::OutOfRange);
    }
    Ok(value)
}

/// The island a branch is redirected to: that of its thunk block, which is the object's own
/// block for code of the primary text part and the first block otherwise.
pub open spec fn island_address(
    in_primary_function_part: bool,
    object_thunk_block: usize,
    thunk_block_addresses: Seq<Map<u32, u64>>,
    canonical_symbol: u32,
) -> Option<u64> {
    let block = if in_primary_function_part {
        object_thunk_block as int
    } else {
        0
    };
    if 0 <= block < thunk_block_addresses.len() && thunk_block_addresses[block].contains_key(
        canonical_symbol,
    ) {
        Some(thunk_block_addresses[block][canonical_symbol])
    } else {
        None
    }
}

/// The value a branch relocation takes when its target is out of reach: none where the branch
/// reaches or cannot be redirected, else the value that reaches the target's island.
/// `thunk_block_addresses` maps, per thunk block, each symbol to the address of its island.
pub fn maybe_get_thunk_for_relocation(
    info: &RelocationKindInfo,
    in_primary_function_part: bool,
    object_thunk_block: usize,
    thunk_block_addresses: &[BTreeMap<u32, u64>],
    canonical_symbol: u32,
    place: u64,
    value: u64,
) -> (r: Result<Option<u64>, RelocationError>)
    ensures
        !(info.thunkable && !info.range.spec_contains(value as i64)) ==> r == Ok::<
            Option<u64>,
            RelocationError,
        >(None),
        info.thunkable && !info.range.spec_contains(value as i64) ==> match island_address(
            in_primary_function_part,
            object_thunk_block,
            thunk_block_addresses@.map_values(|m: BTreeMap<u32, u64>| m@),
            canonical_symbol,
        ) {
            None => r == Err::<Option<u64>, RelocationError>(RelocationError::NoBranchIsland),
            Some(address) => if address == 0 {
                r == Err::<Option<u64>, RelocationError>(RelocationError::BranchIslandUnassigned)
            } else {
                match spec_branch_island_value(*info, address, place) {
                    Ok(v) => r == Ok::<Option<u64>, RelocationError>(Some(v)),
                    Err(e) => r == Err::<Option<u64>, RelocationError>(e),
                }
            },
        },
{
    if !needs_branch_island(info, value) {
        return Ok(None);
    }
    let block = if in_primary_function_part {
        object_thunk_block
    } else {
        0
    };
    let ghost blocks = thunk_block_addresses@.map_values(|m: BTreeMap<u32, u64>| m@);
    if block >= thunk_block_addresses.len() {
        return Err(RelocationError::NoBranchIsland);
    }
    assert(blocks[block as int] == thunk_block_addresses@[block as int]@);
    let thunk_address = match thunk_block_addresses[block].get(&canonical_symbol) {
        None => {
            return Err(RelocationError::NoBranchIsland);
        },
        Some(address) => *address,
    };
    if thunk_address == 0 {
        return Err(RelocationError::BranchIslandUnassigned);
    }
    match branch_island_value(info, thunk_address, place) {
        Ok(v) => Ok(Some(v)),
        Err(e) => Err(e),
    }
}

/// An output section as the TLS-storage search sees it: its type, whether it is emitted, and
/// its address.
#[derive(Debug, Clone, Copy, PartialEq, Eq)]
pub struct OutputSectionStart {
    pub section_type: u32,
    pub emitted: bool,
    pub mem_offset: u64,
}

/// The lowest address among the first `n` emitted thread-local storage sections.
pub open spec fn min_tls_start(sections: Seq<OutputSectionStart>, n: int) -> Option<u64>
    decreases n,
{
    if n <= 0 {
        None
    } else {
        let s = sections[n - 1];
        let rest = min_tls_start(sections, n - 1);
        if s.emitted && spec_is_tls_section_type(s.section_type) {
            match rest {
                Some(m) => Some(if m <= s.mem_offset { m } else { s.mem_offset }),
                None => Some(s.mem_offset),
            }
        } else {
            rest
        }
    }
}

/// Whether a relocation is the data pointer of a thread-local variable descriptor: absolute, in
/// a descriptor section, and aimed at TLS storage.
pub open spec fn is_tlv_data_pointer(r_type: u8, source_section_type: u32, target_section_type: Option<u32>) -> bool {
    &&& r_type == ARM64_RELOC_UNSIGNED
    &&& source_section_type == S_THREAD_LOCAL_VARIABLES
    &&& (target_section_type matches Some(t) && spec_is_tls_section_type(t))
}

/// The start of the image's TLS template that a thread-local variable descriptor's data
/// pointer is an offset into, where the relocation is that pointer: an absolute relocation in a
/// descriptor section whose target is defined in TLS storage. Other relocations get none.
pub fn tlv_descriptor_tls_data_start(
    r_type: u8,
    source_section_type: u32,
    target_section_type: Option<u32>,
    output_sections: &[OutputSectionStart],
) -> (r: Result<Option<u64>, RelocationError>)
    ensures
        !is_tlv_data_pointer(r_type, source_section_type, target_section_type) ==> r == Ok::<
            Option<u64>,
            RelocationError,
        >(None),
        is_tlv_data_pointer(r_type, source_section_type, target_section_type) ==> match min_tls_start(
            output_sections@,
            output_sections@.len() as int,
        ) {
            None => r == Err::<Option<u64>, RelocationError>(RelocationError::NoTlsStorage),
            Some(m) => r == Ok::<Option<u64>, RelocationError>(Some(m)),
        },
{
    if r_type != ARM64_RELOC_UNSIGNED || source_section_type != S_THREAD_LOCAL_VARIABLES {
        return Ok(None);
    }
    match target_section_type {
        None => {
            return Ok(None);
        },
        Some(t) => {
            if !is_tls_section_type(t) {
                return Ok(None);
            }
        },
    }
    let mut start: Option<u64> = None;
    let mut i: usize = 0;
    while i < output_sections.len()
        invariant
            0 <= i <= output_sections@.len(),
            start == min_tls_start(output_sections@, i as int),
        decreases output_sections@.len() - i,
    {
        let s = output_sections[i];
        if s.emitted && is_tls_section_type(s.section_type) {
            start = match start {
                Some(m) => Some(if m <= s.mem_offset { m } else { s.mem_offset }),
                None => Some(s.mem_offset),
            };
        }
        i = i + 1;
    }
    match start {
        None => Err(RelocationError::NoTlsStorage),
        Some(m) => Ok(Some(m)),
    }
}

} // verus!
