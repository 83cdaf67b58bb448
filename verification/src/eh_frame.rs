//! The DWARF32 ARM64 `__eh_frame` grammar accepted by the Mach-O writer: `zR` and `zPLR` CIEs,
//! and FDEs whose pointer fields are 64-bit pc-relative values.
use vstd::prelude::*;
use std::collections::BTreeMap;
use std::ops::Range;
use crate::bytes::{le_u32, read_u32_le, splice, u32_le_bytes, u64_le_bytes, write_u32_at, write_u64_at};

verus! {

broadcast use vstd::std_specs::btree::group_btree_axioms;

/// Why an `__eh_frame` section was rejected.
#[derive(Debug, Clone, Copy, PartialEq, Eq)]
pub enum EhFrameError {
    /// A four-byte field runs past the end of the section.
    TruncatedU32,
    /// A zero-length terminator is followed by nonzero bytes.
    NonzeroAfterTerminator,
    /// The record uses the 64-bit DWARF length escape.
    Dwarf64Record,
    /// A record's length runs past the section or cannot hold its CIE pointer.
    TruncatedRecord,
    /// An FDE's CIE pointer points before the start of the section.
    CiePointerBeforeSection,
    /// An FDE's CIE pointer does not name a CIE parsed earlier.
    UnknownCie,
    /// Two CIEs start at the same offset.
    DuplicateCie,
    /// The CIE ends before its version byte.
    TruncatedCieVersion,
    /// The CIE augmentation string has no terminating NUL inside the record.
    UnterminatedAugmentation,
    /// The CIE augmentation string is neither `zR` nor `zPLR`.
    UnsupportedAugmentation,
    /// A ULEB128 value runs past its bound.
    TruncatedUleb,
    /// A ULEB128 value does not fit 64 bits.
    UlebOverflow,
    /// An SLEB128 value runs past its bound.
    TruncatedSleb,
    /// An SLEB128 value does not fit 64 bits.
    SlebOverflow,
    /// A version-1 CIE ends before its return-address register byte.
    TruncatedReturnRegister,
    /// The CIE or FDE augmentation data runs past the record.
    TruncatedAugmentationData,
    /// A CIE augmentation encoding byte lies past the section.
    TruncatedEncoding,
    /// A `zR` CIE whose FDE encoding is not pc-relative 64-bit.
    UnsupportedZrEncoding,
    /// A `zPLR` CIE whose encodings are not `P=0x9b, L=R=0x10`.
    UnsupportedZplrEncoding,
    /// A pointer encoding whose size is unknown.
    UnsupportedPointerEncoding,
    /// An encoded pointer runs past its bound.
    TruncatedEncodedValue,
    /// The FDE ends before its augmentation length.
    TruncatedFde,
    /// A `zPLR` FDE whose augmentation is not exactly one eight-byte LSDA field.
    UnsupportedZplrFdeAugmentationSize,
    /// A `zR` FDE with augmentation data.
    UnsupportedZrFdeAugmentationSize,
}

/// A parsed CIE. `record_range` includes the length word; `personality_relocation_offset` is the
/// section offset of the four-byte personality field of a `zPLR` CIE.
#[derive(Debug, PartialEq, Eq)]
pub struct EhFrameCie {
    pub record_range: Range<usize>,
    pub personality_relocation_offset: Option<usize>,
}

/// A parsed FDE: its record, the CIE it refers to, and the section offsets of its function and
/// (for a `zPLR` CIE) LSDA pointer fields.
#[derive(Debug, PartialEq, Eq)]
pub struct EhFrameFde {
    pub record_range: Range<usize>,
    pub cie_record_start: usize,
    pub function_relocation_offset: usize,
    pub lsda_relocation_offset: Option<usize>,
}

/// All CIEs by record start, and all FDEs in section order.
#[derive(Debug)]
pub struct EhFrameRecords {
    pub cies: BTreeMap<usize, EhFrameCie>,
    pub fdes: Vec<EhFrameFde>,
}

/// The pointer fields of one FDE whose CIE advertises a personality and which carries an LSDA.
#[derive(Debug, Clone, Copy, PartialEq, Eq)]
pub struct EhFrameAugmentation {
    pub function_relocation_offset: usize,
    pub personality_relocation_offset: usize,
    pub lsda_relocation_offset: usize,
}

// ---------------------------------------------------------------------------------------------
// LEB128
// ---------------------------------------------------------------------------------------------

/// ULEB128 decoding from `pos`, with `shift` bits already consumed into `value`. Bits beyond the
/// 64th must be zero; the value is complete at the first byte with its high bit clear, which must
/// lie before `end`. Yields the value and the position after it.
pub open spec fn uleb_from(data: Seq<u8>, end: int, pos: int, shift: u32, value: u64) -> Result<
    (u64, int),
    EhFrameError,
>
    decreases data.len() - pos,
{
    if pos >= end || pos >= data.len() || pos < 0 {
        Err(EhFrameError::TruncatedUleb)
    } else {
        let byte = data[pos];
        if shift >= 64 && byte & 0x7f != 0 {
            Err(EhFrameError::UlebOverflow)
        } else {
            let v = if shift < 64 {
                value | (((byte & 0x7f) as u64) << shift)
            } else {
                value
            };
            if byte & 0x80 == 0 {
                Ok((v, pos + 1))
            } else {
                uleb_from(data, end, pos + 1, if shift < 64 { (shift + 7) as u32 } else { shift }, v)
            }
        }
    }
}

/// SLEB128 decoding, as ULEB128 with the value sign-extended from the last byte's bit 6.
pub open spec fn sleb_from(data: Seq<u8>, end: int, pos: int, shift: u32, value: u64) -> Result<
    (u64, int),
    EhFrameError,
>
    decreases data.len() - pos,
{
    if pos >= end || pos >= data.len() || pos < 0 {
        Err(EhFrameError::TruncatedSleb)
    } else {
        let byte = data[pos];
        if shift >= 64 && byte & 0x7f != 0 {
            Err(EhFrameError::SlebOverflow)
        } else {
            let v = if shift < 64 {
                value | (((byte & 0x7f) as u64) << shift)
            } else {
                value
            };
            if byte & 0x80 == 0 {
                if shift < 63 && byte & 0x40 != 0 {
                    Ok((v | (0xffff_ffff_ffff_ffffu64 << ((shift + 7) as u32)), pos + 1))
                } else {
                    Ok((v, pos + 1))
                }
            } else {
                sleb_from(data, end, pos + 1, if shift < 64 { (shift + 7) as u32 } else { shift }, v)
            }
        }
    }
}

/// A decoded ULEB128 value ends after its first byte and no later than `end`.
pub proof fn lemma_uleb_bounds(data: Seq<u8>, end: int, pos: int, shift: u32, value: u64)
    ensures
        uleb_from(data, end, pos, shift, value) matches Ok((_, p)) ==> pos < p <= end,
    decreases data.len() - pos,
{
    if !(pos >= end || pos >= data.len() || pos < 0) {
        let byte = data[pos];
        let v = if shift < 64 {
            value | (((byte & 0x7f) as u64) << shift)
        } else {
            value
        };
        lemma_uleb_bounds(data, end, pos + 1, if shift < 64 { (shift + 7) as u32 } else { shift }, v);
    }
}

/// A decoded SLEB128 value ends after its first byte and no later than `end`.
pub proof fn lemma_sleb_bounds(data: Seq<u8>, end: int, pos: int, shift: u32, value: u64)
    ensures
        sleb_from(data, end, pos, shift, value) matches Ok((_, p)) ==> pos < p <= end,
    decreases data.len() - pos,
{
    if !(pos >= end || pos >= data.len() || pos < 0) {
        let byte = data[pos];
        let v = if shift < 64 {
            value | (((byte & 0x7f) as u64) << shift)
        } else {
            value
        };
        lemma_sleb_bounds(data, end, pos + 1, if shift < 64 { (shift + 7) as u32 } else { shift }, v);
    }
}

/// Reads a ULEB128 value at `*offset`, which must lie before `end`.
pub fn eh_frame_uleb(data: &[u8], end: usize, offset: &mut usize) -> (r: Result<u64, EhFrameError>)
    requires
        end <= data@.len(),
    ensures
        match uleb_from(data@, end as int, *old(offset) as int, 0, 0) {
            Ok((v, p)) => r == Ok::<u64, EhFrameError>(v) && *final(offset) == p,
            Err(e) => r == Err::<u64, EhFrameError>(e),
        },
        r is Ok ==> *old(offset) < *final(offset) <= end,
{
    let mut value: u64 = 0;
    let mut shift: u32 = 0;
    let ghost start = *offset as int;
    loop
        invariant
            end <= data@.len(),
            start == *old(offset) as int,
            start <= *offset,
            shift <= 70,
            shift % 7 == 0,
            uleb_from(data@, end as int, start, 0, 0) == uleb_from(
                data@,
                end as int,
                *offset as int,
                shift,
                value,
            ),
        decreases data@.len() - *offset,
    {
        if *offset >= end {
            return Err(EhFrameError::TruncatedUleb);
        }
        let byte = data[*offset];
        *offset = *offset + 1;
        if shift >= 64 && byte & 0x7f != 0 {
            return Err(EhFrameError::UlebOverflow);
        }
        if shift < 64 {
            value = value | (((byte & 0x7f) as u64) << shift);
        }
        if byte & 0x80 == 0 {
            return Ok(value);
        }
        if shift < 64 {
            shift = shift + 7;
        }
    }
}

/// Reads an SLEB128 value at `*offset`, which must lie before `end`.
pub fn eh_frame_sleb(data: &[u8], end: usize, offset: &mut usize) -> (r: Result<i64, EhFrameError>)
    requires
        end <= data@.len(),
    ensures
        match sleb_from(data@, end as int, *old(offset) as int, 0, 0) {
            Ok((v, p)) => r == Ok::<i64, EhFrameError>(v as i64) && *final(offset) == p,
            Err(e) => r == Err::<i64, EhFrameError>(e),
        },
        r is Ok ==> *old(offset) < *final(offset) <= end,
{
    let mut value: u64 = 0;
    let mut shift: u32 = 0;
    let ghost start = *offset as int;
    loop
        invariant
            end <= data@.len(),
            start == *old(offset) as int,
            start <= *offset,
            shift <= 70,
            shift % 7 == 0,
            sleb_from(data@, end as int, start, 0, 0) == sleb_from(
                data@,
                end as int,
                *offset as int,
                shift,
                value,
            ),
        decreases data@.len() - *offset,
    {
        if *offset >= end {
            return Err(EhFrameError::TruncatedSleb);
        }
        let byte = data[*offset];
        *offset = *offset + 1;
        if shift >= 64 && byte & 0x7f != 0 {
            return Err(EhFrameError::SlebOverflow);
        }
        if shift < 64 {
            value = value | (((byte & 0x7f) as u64) << shift);
        }
        if byte & 0x80 == 0 {
            if shift < 63 && byte & 0x40 != 0 {
                value = value | (0xffff_ffff_ffff_ffffu64 << (shift + 7));
            }
            return Ok(value as i64);
        }
        if shift < 64 {
            shift = shift + 7;
        }
    }
}


// ---------------------------------------------------------------------------------------------
// Fixed-width fields and encoded pointers
// ---------------------------------------------------------------------------------------------

/// Reads the little-endian `u32` at `offset` of the section.
pub fn eh_frame_u32(data: &[u8], offset: usize) -> (r: Result<u32, EhFrameError>)
    ensures
        offset + 4 <= data@.len() ==> r == Ok::<u32, EhFrameError>(
            le_u32(data@, offset as int) as u32,
        ),
        offset + 4 > data@.len() ==> r == Err::<u32, EhFrameError>(EhFrameError::TruncatedU32),
{
    let n = data.len();
    if offset > n || n - offset < 4 {
        return Err(EhFrameError::TruncatedU32);
    }
    Ok(read_u32_le(data, offset))
}

/// The position after a DWARF pointer of encoding `encoding` at `offset`, bounded by `end`.
pub open spec fn spec_skip_encoded_value(data: Seq<u8>, end: int, offset: int, encoding: u8) -> Result<
    int,
    EhFrameError,
> {
    let format = encoding & 0x0f;
    if format == 0x01 {
        match uleb_from(data, end, offset, 0, 0) {
            Ok((_, p)) => Ok(p),
            Err(e) => Err(e),
        }
    } else if format == 0x09 {
        match sleb_from(data, end, offset, 0, 0) {
            Ok((_, p)) => Ok(p),
            Err(e) => Err(e),
        }
    } else {
        let size: int = if format == 0x00 || format == 0x04 || format == 0x0c {
            8
        } else if format == 0x02 || format == 0x0a {
            2
        } else if format == 0x03 || format == 0x0b {
            4
        } else {
            0
        };
        if size == 0 {
            Err(EhFrameError::UnsupportedPointerEncoding)
        } else if offset + size > end {
            Err(EhFrameError::TruncatedEncodedValue)
        } else {
            Ok(offset + size)
        }
    }
}

/// Skips one encoded pointer: absolute and fixed-width forms by their size, and the two LEB128
/// forms by decoding them.
pub fn eh_frame_skip_encoded_value(data: &[u8], end: usize, offset: usize, encoding: u8) -> (r:
    Result<usize, EhFrameError>)
    requires
        end <= data@.len(),
    ensures
        match spec_skip_encoded_value(data@, end as int, offset as int, encoding) {
            Ok(p) => r == Ok::<usize, EhFrameError>(p as usize) && offset < p <= end,
            Err(e) => r == Err::<usize, EhFrameError>(e),
        },
{
    proof {
        lemma_uleb_bounds(data@, end as int, offset as int, 0, 0);
        lemma_sleb_bounds(data@, end as int, offset as int, 0, 0);
    }
    let format = encoding & 0x0f;
    if format == 0x01 {
        let mut cursor = offset;
        eh_frame_uleb(data, end, &mut cursor)?;
        return Ok(cursor);
    }
    if format == 0x09 {
        let mut cursor = offset;
        eh_frame_sleb(data, end, &mut cursor)?;
        return Ok(cursor);
    }
    let size: usize = if format == 0x00 || format == 0x04 || format == 0x0c {
        8
    } else if format == 0x02 || format == 0x0a {
        2
    } else if format == 0x03 || format == 0x0b {
        4
    } else {
        return Err(EhFrameError::UnsupportedPointerEncoding);
    };
    if offset > end || end - offset < size {
        return Err(EhFrameError::TruncatedEncodedValue);
    }
    Ok(offset + size)
}


// ---------------------------------------------------------------------------------------------
// CIEs and FDEs
// ---------------------------------------------------------------------------------------------

/// The augmentation string `zR`.
pub open spec fn aug_zr() -> Seq<u8> {
    seq![0x7au8, 0x52]
}

/// The augmentation string `zPLR`.
pub open spec fn aug_zplr() -> Seq<u8> {
    seq![0x7au8, 0x50, 0x4c, 0x52]
}

/// The position of the NUL that ends a CIE augmentation string scanned from `pos`. Every byte
/// after the first must lie before `end`.
pub open spec fn augmentation_nul(data: Seq<u8>, end: int, pos: int) -> Result<int, EhFrameError>
    decreases data.len() - pos,
{
    if pos < 0 || pos >= data.len() {
        Err(EhFrameError::UnterminatedAugmentation)
    } else if data[pos] == 0 {
        Ok(pos)
    } else if pos + 1 >= end {
        Err(EhFrameError::UnterminatedAugmentation)
    } else {
        augmentation_nul(data, end, pos + 1)
    }
}

/// The position after the return-address register: one byte in a version-1 CIE, otherwise a
/// ULEB128 value.
pub open spec fn cie_after_return_register(data: Seq<u8>, end: int, pos: int, version: u8) -> Result<
    int,
    EhFrameError,
> {
    if version == 1 {
        if pos + 1 > end {
            Err(EhFrameError::TruncatedReturnRegister)
        } else {
            Ok(pos + 1)
        }
    } else {
        match uleb_from(data, end, pos, 0, 0) {
            Ok((_, p)) => Ok(p),
            Err(e) => Err(e),
        }
    }
}

/// The augmentation data of a CIE, running from `pos` to `aug_end`: a `zR` CIE holds exactly the
/// FDE encoding `0x10`; a `zPLR` CIE holds the personality encoding `0x9b` and its pointer, then the
/// LSDA and FDE encodings `0x10`. Yields the personality field's offset for `zPLR`.
pub open spec fn cie_personality(data: Seq<u8>, pos: int, aug_end: int, is_zplr: bool) -> Result<
    Option<usize>,
    EhFrameError,
> {
    if pos < 0 || pos >= data.len() {
        Err(EhFrameError::TruncatedEncoding)
    } else if !is_zplr {
        if data[pos] == 0x10 && pos + 1 == aug_end {
            Ok(None)
        } else {
            Err(EhFrameError::UnsupportedZrEncoding)
        }
    } else {
        let personality_encoding = data[pos];
        let pointer = pos + 1;
        match spec_skip_encoded_value(data, aug_end, pointer, personality_encoding) {
            Err(e) => Err(e),
            Ok(o) => if o >= data.len() || o + 1 >= data.len() {
                Err(EhFrameError::TruncatedEncoding)
            } else if personality_encoding == 0x9b && data[o] == 0x10 && data[o + 1] == 0x10 && o
                + 2 == aug_end {
                Ok(Some(pointer as usize))
            } else {
                Err(EhFrameError::UnsupportedZplrEncoding)
            },
        }
    }
}

/// The CIE whose record occupies `start..end`: version byte, `zR`/`zPLR` augmentation string, code
/// and data alignment factors, return-address register, then the sized augmentation data.
pub open spec fn spec_parse_eh_frame_cie(data: Seq<u8>, start: int, end: int) -> Result<
    EhFrameCie,
    EhFrameError,
> {
    let off = start + 8;
    if off < 0 || off >= data.len() {
        Err(EhFrameError::TruncatedCieVersion)
    } else {
        match augmentation_nul(data, end, off + 1) {
            Err(e) => Err(e),
            Ok(nul) => {
                let aug = data.subrange(off + 1, nul);
                if aug != aug_zr() && aug != aug_zplr() {
                    Err(EhFrameError::UnsupportedAugmentation)
                } else {
                    match uleb_from(data, end, nul + 1, 0, 0) {
                        Err(e) => Err(e),
                        Ok((_, o1)) => match sleb_from(data, end, o1, 0, 0) {
                            Err(e) => Err(e),
                            Ok((_, o2)) => match cie_after_return_register(data, end, o2, data[off]) {
                                Err(e) => Err(e),
                                Ok(o3) => match uleb_from(data, end, o3, 0, 0) {
                                    Err(e) => Err(e),
                                    Ok((size, o4)) => if o4 + size > end {
                                        Err(EhFrameError::TruncatedAugmentationData)
                                    } else {
                                        match cie_personality(data, o4, o4 + size, aug == aug_zplr()) {
                                            Err(e) => Err(e),
                                            Ok(p) => Ok(
                                                EhFrameCie {
                                                    record_range: Range {
                                                        start: start as usize,
                                                        end: end as usize,
                                                    },
                                                    personality_relocation_offset: p,
                                                },
                                            ),
                                        }
                                    },
                                },
                            },
                        },
                    }
                }
            },
        }
    }
}

/// Parses the CIE whose record occupies `record_start..record_end`.
pub fn parse_eh_frame_cie(data: &[u8], record_start: usize, record_end: usize) -> (r: Result<
    EhFrameCie,
    EhFrameError,
>)
    requires
        record_start + 8 <= record_end <= data@.len(),
    ensures
        r == spec_parse_eh_frame_cie(data@, record_start as int, record_end as int),
{
    let n = data.len();
    let mut offset = record_start + 8;
    if offset >= n {
        return Err(EhFrameError::TruncatedCieVersion);
    }
    let version = data[offset];
    offset = offset + 1;
    let augmentation_start = offset;
    loop
        invariant
            n == data@.len(),
            record_end <= n,
            record_start + 8 < n,
            version == data@[record_start + 8],
            augmentation_start == record_start + 9,
            augmentation_start <= offset,
            augmentation_nul(data@, record_end as int, augmentation_start as int)
                == augmentation_nul(data@, record_end as int, offset as int),
        ensures
            offset < n,
            augmentation_start <= offset,
            augmentation_nul(data@, record_end as int, augmentation_start as int) == Ok::<
                int,
                EhFrameError,
            >(offset as int),
        decreases n - offset,
    {
        if offset >= n {
            return Err(EhFrameError::UnterminatedAugmentation);
        }
        if data[offset] == 0 {
            break;
        }
        offset = offset + 1;
        if offset >= record_end {
            return Err(EhFrameError::UnterminatedAugmentation);
        }
    }
    let nul = offset;
    assert(augmentation_nul(data@, record_end as int, augmentation_start as int) == Ok::<
        int,
        EhFrameError,
    >(nul as int));
    let aug_len = nul - augmentation_start;
    let is_zr = aug_len == 2 && data[augmentation_start] == 0x7a && data[augmentation_start + 1]
        == 0x52;
    let is_zplr = aug_len == 4 && data[augmentation_start] == 0x7a && data[augmentation_start + 1]
        == 0x50 && data[augmentation_start + 2] == 0x4c && data[augmentation_start + 3] == 0x52;
    let ghost aug = data@.subrange(augmentation_start as int, nul as int);
    proof {
        if aug.len() == 2 {
            assert(is_zr == (aug =~= aug_zr()));
        } else {
            assert(!(aug =~= aug_zr()));
            assert(!is_zr);
        }
        if aug.len() == 4 {
            assert(is_zplr == (aug =~= aug_zplr()));
        } else {
            assert(!(aug =~= aug_zplr()));
            assert(!is_zplr);
        }
    }
    if !is_zr && !is_zplr {
        return Err(EhFrameError::UnsupportedAugmentation);
    }
    offset = nul + 1;
    eh_frame_uleb(data, record_end, &mut offset)?;
    eh_frame_sleb(data, record_end, &mut offset)?;
    if version == 1 {
        if offset >= record_end {
            return Err(EhFrameError::TruncatedReturnRegister);
        }
        offset = offset + 1;
    } else {
        eh_frame_uleb(data, record_end, &mut offset)?;
    }
    let augmentation_size = eh_frame_uleb(data, record_end, &mut offset)?;
    if augmentation_size > (record_end - offset) as u64 {
        return Err(EhFrameError::TruncatedAugmentationData);
    }
    let augmentation_end = offset + augmentation_size as usize;
    if offset >= n {
        return Err(EhFrameError::TruncatedEncoding);
    }
    let personality_relocation_offset = if is_zr {
        assert(aug =~= aug_zr());
        let fde_encoding = data[offset];
        offset = offset + 1;
        if !(fde_encoding == 0x10 && offset == augmentation_end) {
            return Err(EhFrameError::UnsupportedZrEncoding);
        }
        None
    } else {
        assert(aug =~= aug_zplr());
        let personality_encoding = data[offset];
        offset = offset + 1;
        let pointer_offset = offset;
        offset = eh_frame_skip_encoded_value(data, augmentation_end, offset, personality_encoding)?;
        if offset >= n || offset + 1 >= n {
            return Err(EhFrameError::TruncatedEncoding);
        }
        let lsda_encoding = data[offset];
        let fde_encoding = data[offset + 1];
        offset = offset + 2;
        if !(personality_encoding == 0x9b && lsda_encoding == 0x10 && fde_encoding == 0x10
            && offset == augmentation_end) {
            return Err(EhFrameError::UnsupportedZplrEncoding);
        }
        Some(pointer_offset)
    };
    Ok(EhFrameCie { record_range: record_start..record_end, personality_relocation_offset })
}


/// The FDE whose record occupies `start..end` and whose CIE starts at `cie_start`: an eight-byte
/// initial location (the function field) and range, then a ULEB128 augmentation size that is 8
/// (one LSDA field) when the CIE has a personality and 0 otherwise.
pub open spec fn spec_parse_eh_frame_fde(
    data: Seq<u8>,
    start: int,
    end: int,
    has_personality: bool,
    cie_start: int,
) -> Result<EhFrameFde, EhFrameError> {
    let function = start + 8;
    let augmentation_length = function + 16;
    if augmentation_length >= end {
        Err(EhFrameError::TruncatedFde)
    } else {
        match uleb_from(data, end, augmentation_length, 0, 0) {
            Err(e) => Err(e),
            Ok((size, o)) => if has_personality && size != 8 {
                Err(EhFrameError::UnsupportedZplrFdeAugmentationSize)
            } else if !has_personality && size != 0 {
                Err(EhFrameError::UnsupportedZrFdeAugmentationSize)
            } else if o + size > end {
                Err(EhFrameError::TruncatedAugmentationData)
            } else {
                Ok(
                    EhFrameFde {
                        record_range: Range { start: start as usize, end: end as usize },
                        cie_record_start: cie_start as usize,
                        function_relocation_offset: function as usize,
                        lsda_relocation_offset: if has_personality {
                            Some(o as usize)
                        } else {
                            None
                        },
                    },
                )
            },
        }
    }
}

/// Parses the FDE whose record occupies `record_start..record_end`, given its CIE.
pub fn parse_eh_frame_fde(
    data: &[u8],
    record_start: usize,
    record_end: usize,
    cie: &EhFrameCie,
    cie_record_start: usize,
) -> (r: Result<EhFrameFde, EhFrameError>)
    requires
        record_start + 8 <= record_end <= data@.len(),
    ensures
        r == spec_parse_eh_frame_fde(
            data@,
            record_start as int,
            record_end as int,
            cie.personality_relocation_offset is Some,
            cie_record_start as int,
        ),
{
    let function_relocation_offset = record_start + 8;
    if record_end - function_relocation_offset <= 16 {
        return Err(EhFrameError::TruncatedFde);
    }
    let mut offset = function_relocation_offset + 16;
    let augmentation_size = eh_frame_uleb(data, record_end, &mut offset)?;
    let lsda_relocation_offset = if cie.personality_relocation_offset.is_some() {
        if augmentation_size != 8 {
            return Err(EhFrameError::UnsupportedZplrFdeAugmentationSize);
        }
        Some(offset)
    } else {
        if augmentation_size != 0 {
            return Err(EhFrameError::UnsupportedZrFdeAugmentationSize);
        }
        None
    };
    if augmentation_size > (record_end - offset) as u64 {
        return Err(EhFrameError::TruncatedAugmentationData);
    }
    Ok(
        EhFrameFde {
            record_range: record_start..record_end,
            cie_record_start,
            function_relocation_offset,
            lsda_relocation_offset,
        },
    )
}

// ---------------------------------------------------------------------------------------------
// Whole sections
// ---------------------------------------------------------------------------------------------

/// Every byte from `pos` to the end of the section is zero.
pub open spec fn all_zero_from(data: Seq<u8>, pos: int) -> bool {
    forall|i: int| pos <= i < data.len() ==> data[i] == 0
}

/// The records of the section from `start` on, added to the CIEs and FDEs already parsed. A
/// zero length ends the table, and only zero padding may follow it; every other record holds a
/// 32-bit CIE pointer that is zero for a CIE and, for an FDE, the distance back from the pointer
/// field to an earlier CIE.
pub open spec fn records_from(
    data: Seq<u8>,
    start: int,
    cies: Map<usize, EhFrameCie>,
    fdes: Seq<EhFrameFde>,
) -> Result<(Map<usize, EhFrameCie>, Seq<EhFrameFde>), EhFrameError>
    decreases data.len() - start,
{
    if start < 0 || start >= data.len() {
        Ok((cies, fdes))
    } else if start + 4 > data.len() {
        Err(EhFrameError::TruncatedU32)
    } else {
        let length = le_u32(data, start);
        if length == 0 {
            if all_zero_from(data, start) {
                Ok((cies, fdes))
            } else {
                Err(EhFrameError::NonzeroAfterTerminator)
            }
        } else if length == 0xffff_ffff {
            Err(EhFrameError::Dwarf64Record)
        } else {
            let end = start + 4 + length;
            if end > data.len() || length < 4 {
                Err(EhFrameError::TruncatedRecord)
            } else {
                let cie_pointer = le_u32(data, start + 4);
                if cie_pointer == 0 {
                    match spec_parse_eh_frame_cie(data, start, end) {
                        Err(e) => Err(e),
                        Ok(cie) => if cies.contains_key(start as usize) {
                            Err(EhFrameError::DuplicateCie)
                        } else {
                            records_from(data, end, cies.insert(start as usize, cie), fdes)
                        },
                    }
                } else if cie_pointer > start + 4 {
                    Err(EhFrameError::CiePointerBeforeSection)
                } else {
                    let cie_start = start + 4 - cie_pointer;
                    if !cies.contains_key(cie_start as usize) {
                        Err(EhFrameError::UnknownCie)
                    } else {
                        match spec_parse_eh_frame_fde(
                            data,
                            start,
                            end,
                            cies[cie_start as usize].personality_relocation_offset is Some,
                            cie_start,
                        ) {
                            Err(e) => Err(e),
                            Ok(fde) => records_from(data, end, cies, fdes.push(fde)),
                        }
                    }
                }
            }
        }
    }
}

/// The records of a whole section.
pub open spec fn spec_parse_eh_frame_records(data: Seq<u8>) -> Result<
    (Map<usize, EhFrameCie>, Seq<EhFrameFde>),
    EhFrameError,
> {
    records_from(data, 0, Map::empty(), Seq::empty())
}

/// Parses every CIE and FDE of an `__eh_frame` section.
pub fn parse_eh_frame_records(data: &[u8]) -> (r: Result<EhFrameRecords, EhFrameError>)
    ensures
        match spec_parse_eh_frame_records(data@) {
            Ok((cies, fdes)) => r matches Ok(records) && records.cies@ == cies && records.fdes@
                == fdes,
            Err(e) => r matches Err(e2) && e2 == e,
        },
{
    let n = data.len();
    let mut cies: BTreeMap<usize, EhFrameCie> = BTreeMap::new();
    let mut fdes: Vec<EhFrameFde> = Vec::new();
    let mut record_start: usize = 0;
    while record_start < n
        invariant
            n == data@.len(),
            record_start <= n,
            spec_parse_eh_frame_records(data@) == records_from(
                data@,
                record_start as int,
                cies@,
                fdes@,
            ),
        decreases n - record_start,
    {
        let length = eh_frame_u32(data, record_start)?;
        if length == 0 {
            let mut i = record_start;
            while i < n
                invariant
                    n == data@.len(),
                    record_start + 4 <= n,
                    le_u32(data@, record_start as int) == 0,
                    spec_parse_eh_frame_records(data@) == records_from(
                        data@,
                        record_start as int,
                        cies@,
                        fdes@,
                    ),
                    record_start <= i <= n,
                    forall|j: int| record_start <= j < i ==> data@[j] == 0,
                decreases n - i,
            {
                if data[i] != 0 {
                    return Err(EhFrameError::NonzeroAfterTerminator);
                }
                i = i + 1;
            }
            record_start = n;
            continue;
        }
        if length == 0xffff_ffff {
            return Err(EhFrameError::Dwarf64Record);
        }
        if n - record_start - 4 < length as usize || length < 4 {
            return Err(EhFrameError::TruncatedRecord);
        }
        let record_end = record_start + 4 + length as usize;
        let cie_pointer = eh_frame_u32(data, record_start + 4)?;
        if cie_pointer == 0 {
            let cie = parse_eh_frame_cie(data, record_start, record_end)?;
            if cies.contains_key(&record_start) {
                return Err(EhFrameError::DuplicateCie);
            }
            cies.insert(record_start, cie);
        } else {
            if cie_pointer as usize > record_start + 4 {
                return Err(EhFrameError::CiePointerBeforeSection);
            }
            let cie_start = record_start + 4 - cie_pointer as usize;
            let fde = match cies.get(&cie_start) {
                None => {
                    return Err(EhFrameError::UnknownCie);
                },
                Some(cie) => parse_eh_frame_fde(data, record_start, record_end, cie, cie_start)?,
            };
            fdes.push(fde);
        }
        record_start = record_end;
    }
    Ok(EhFrameRecords { cies, fdes })
}


/// The augmentations of `fdes`, in order: one for every FDE whose CIE is known and has a
/// personality field and which itself has an LSDA field.
pub open spec fn augmentations_of(cies: Map<usize, EhFrameCie>, fdes: Seq<EhFrameFde>) -> Seq<
    EhFrameAugmentation,
>
    decreases fdes.len(),
{
    if fdes.len() == 0 {
        Seq::empty()
    } else {
        let prev = augmentations_of(cies, fdes.drop_last());
        let fde = fdes.last();
        if cies.contains_key(fde.cie_record_start) && cies[fde.cie_record_start].personality_relocation_offset is Some
            && fde.lsda_relocation_offset is Some {
            prev.push(
                EhFrameAugmentation {
                    function_relocation_offset: fde.function_relocation_offset,
                    personality_relocation_offset: cies[fde.cie_record_start].personality_relocation_offset->0,
                    lsda_relocation_offset: fde.lsda_relocation_offset->0,
                },
            )
        } else {
            prev
        }
    }
}

/// The personality, LSDA and function fields of every `zPLR` FDE in the section; `zR` FDEs are
/// skipped.
pub fn eh_frame_augmentations(data: &[u8]) -> (r: Result<Vec<EhFrameAugmentation>, EhFrameError>)
    ensures
        match spec_parse_eh_frame_records(data@) {
            Ok((cies, fdes)) => r matches Ok(v) && v@ == augmentations_of(cies, fdes),
            Err(e) => r matches Err(e2) && e2 == e,
        },
{
    let records = parse_eh_frame_records(data)?;
    let mut out: Vec<EhFrameAugmentation> = Vec::new();
    let mut i: usize = 0;
    while i < records.fdes.len()
        invariant
            0 <= i <= records.fdes@.len(),
            out@ == augmentations_of(records.cies@, records.fdes@.take(i as int)),
        decreases records.fdes@.len() - i,
    {
        let fde = &records.fdes[i];
        assert(records.fdes@.take(i + 1).drop_last() =~= records.fdes@.take(i as int));
        match records.cies.get(&fde.cie_record_start) {
            Some(cie) => match (cie.personality_relocation_offset, fde.lsda_relocation_offset) {
                (Some(personality_relocation_offset), Some(lsda_relocation_offset)) => {
                    out.push(
                        EhFrameAugmentation {
                            function_relocation_offset: fde.function_relocation_offset,
                            personality_relocation_offset,
                            lsda_relocation_offset,
                        },
                    );
                },
                _ => {},
            },
            None => {},
        }
        i = i + 1;
    }
    assert(records.fdes@.take(records.fdes@.len() as int) =~= records.fdes@);
    Ok(out)
}

/// Why a synthetic section size could not be computed.
#[derive(Debug, Clone, Copy, PartialEq, Eq)]
pub enum CapacityError {
    /// The input size plus the terminator does not fit `usize`.
    InputTooLarge,
    /// Rounding up to the section alignment does not fit `usize`.
    AlignmentOverflow,
}

/// The room reserved for the final `__eh_frame`: every input byte plus one four-byte terminator,
/// rounded up to the section's eight-byte alignment.
pub fn eh_frame_capacity(input_size: usize) -> (r: Result<usize, CapacityError>)
    ensures
        input_size + 4 > usize::MAX ==> r == Err::<usize, CapacityError>(
            CapacityError::InputTooLarge,
        ),
        input_size + 4 <= usize::MAX && input_size + 11 > usize::MAX ==> r == Err::<
            usize,
            CapacityError,
        >(CapacityError::AlignmentOverflow),
        input_size + 11 <= usize::MAX ==> (r matches Ok(c) && c % 8 == 0 && input_size + 4 <= c
            < input_size + 12),
{
    if input_size > usize::MAX - 4 {
        return Err(CapacityError::InputTooLarge);
    }
    let size = input_size + 4;
    if size > usize::MAX - 7 {
        return Err(CapacityError::AlignmentOverflow);
    }
    let rounded = size + 7;
    let capacity = rounded - rounded % 8;
    Ok(capacity)
}

// ---------------------------------------------------------------------------------------------
// Output fields
// ---------------------------------------------------------------------------------------------

/// Why an output `__eh_frame` field could not be written.
#[derive(Debug, Clone, Copy, PartialEq, Eq)]
pub enum EhFrameWriteError {
    /// The field runs past the end of the output buffer.
    Truncated,
    /// The field's address does not fit 64 bits.
    AddressOverflow,
    /// The pc-relative distance does not fit the field.
    OutOfRange,
}

/// The buffer after writing the little-endian `value` at `offset`, or why it cannot be written.
pub open spec fn spec_write_eh_frame_u32(data: Seq<u8>, offset: int, value: u32) -> Result<
    Seq<u8>,
    EhFrameWriteError,
> {
    if offset + 4 > data.len() {
        Err(EhFrameWriteError::Truncated)
    } else {
        Ok(splice(data, offset, u32_le_bytes(value)))
    }
}

/// The buffer after writing `target` as a signed 32-bit distance from the field at `offset` of a
/// section at `section_address`, or why it cannot be written.
pub open spec fn spec_write_eh_frame_pcrel_i32(
    data: Seq<u8>,
    offset: int,
    section_address: u64,
    target: u64,
) -> Result<Seq<u8>, EhFrameWriteError> {
    let delta = pcrel_delta(offset, section_address as int, target as int);
    if section_address + offset > u64::MAX {
        Err(EhFrameWriteError::AddressOverflow)
    } else if !(i32::MIN <= delta <= i32::MAX) {
        Err(EhFrameWriteError::OutOfRange)
    } else if offset + 4 > data.len() {
        Err(EhFrameWriteError::Truncated)
    } else {
        Ok(splice(data, offset, u32_le_bytes((delta % 0x1_0000_0000) as u32)))
    }
}

/// The buffer after writing `target` as a signed 64-bit distance from the field at `offset` of a
/// section at `section_address`, or why it cannot be written.
pub open spec fn spec_write_eh_frame_pcrel_i64(
    data: Seq<u8>,
    offset: int,
    section_address: u64,
    target: u64,
) -> Result<Seq<u8>, EhFrameWriteError> {
    let delta = pcrel_delta(offset, section_address as int, target as int);
    if section_address + offset > u64::MAX {
        Err(EhFrameWriteError::AddressOverflow)
    } else if offset + 8 > data.len() {
        Err(EhFrameWriteError::Truncated)
    } else {
        Ok(splice(data, offset, u64_le_bytes((delta % 0x1_0000_0000_0000_0000) as u64)))
    }
}

/// Writes the little-endian `value` at `offset`.
pub fn write_eh_frame_u32(data: &mut [u8], offset: usize, value: u32, _field_name: &str) -> (r:
    Result<(), EhFrameWriteError>)
    ensures
        offset + 4 <= old(data)@.len() ==> r is Ok && final(data)@ == splice(
            old(data)@,
            offset as int,
            u32_le_bytes(value),
        ),
        offset + 4 > old(data)@.len() ==> r == Err::<(), EhFrameWriteError>(
            EhFrameWriteError::Truncated,
        ) && final(data)@ == old(data)@,
        match spec_write_eh_frame_u32(old(data)@, offset as int, value) {
            Ok(b) => r is Ok && final(data)@ == b,
            Err(e) => r == Err::<(), EhFrameWriteError>(e) && final(data)@ == old(data)@,
        },
{
    let n = data.len();
    if offset > n || n - offset < 4 {
        return Err(EhFrameWriteError::Truncated);
    }
    write_u32_at(data, offset, value);
    Ok(())
}

/// The signed distance from the field at `offset` of a section at `section_address` to `target`.
pub open spec fn pcrel_delta(offset: int, section_address: int, target: int) -> int {
    target - (section_address + offset)
}

/// Writes `target` as a signed 32-bit distance from the field's own final address.
pub fn write_eh_frame_pcrel_i32(
    data: &mut [u8],
    offset: usize,
    section_address: u64,
    target: u64,
    _field_name: &str,
) -> (r: Result<(), EhFrameWriteError>)
    ensures
        ({
            let delta = pcrel_delta(offset as int, section_address as int, target as int);
            &&& section_address + offset > u64::MAX ==> r == Err::<(), EhFrameWriteError>(
                EhFrameWriteError::AddressOverflow,
            )
            &&& section_address + offset <= u64::MAX && !(i32::MIN <= delta <= i32::MAX) ==> r
                == Err::<(), EhFrameWriteError>(EhFrameWriteError::OutOfRange)
            &&& section_address + offset <= u64::MAX && i32::MIN <= delta <= i32::MAX && offset
                + 4 > old(data)@.len() ==> r == Err::<(), EhFrameWriteError>(
                EhFrameWriteError::Truncated,
            )
            &&& r is Ok <==> (section_address + offset <= u64::MAX && i32::MIN <= delta
                <= i32::MAX && offset + 4 <= old(data)@.len())
            &&& r is Ok ==> final(data)@ == splice(
                old(data)@,
                offset as int,
                u32_le_bytes((delta % 0x1_0000_0000) as u32),
            )
            &&& r is Err ==> final(data)@ == old(data)@
        }),
        match spec_write_eh_frame_pcrel_i32(old(data)@, offset as int, section_address, target) {
            Ok(b) => r is Ok && final(data)@ == b,
            Err(e) => r == Err::<(), EhFrameWriteError>(e) && final(data)@ == old(data)@,
        },
{
    if section_address > u64::MAX - (offset as u64) {
        return Err(EhFrameWriteError::AddressOverflow);
    }
    let field_address = section_address + offset as u64;
    let delta: i128 = target as i128 - field_address as i128;
    if delta < -0x8000_0000 || delta > 0x7fff_ffff {
        return Err(EhFrameWriteError::OutOfRange);
    }
    let encoded: u32 = if delta < 0 {
        (delta + 0x1_0000_0000) as u32
    } else {
        delta as u32
    };
    write_eh_frame_u32(data, offset, encoded, _field_name)
}

/// Writes `target` as a signed 64-bit distance from the field's own final address.
pub fn write_eh_frame_pcrel_i64(
    data: &mut [u8],
    offset: usize,
    section_address: u64,
    target: u64,
    _field_name: &str,
) -> (r: Result<(), EhFrameWriteError>)
    ensures
        ({
            let delta = pcrel_delta(offset as int, section_address as int, target as int);
            &&& section_address + offset > u64::MAX ==> r == Err::<(), EhFrameWriteError>(
                EhFrameWriteError::AddressOverflow,
            )
            &&& section_address + offset <= u64::MAX && offset + 8 > old(data)@.len() ==> r
                == Err::<(), EhFrameWriteError>(EhFrameWriteError::Truncated)
            &&& r is Ok <==> (section_address + offset <= u64::MAX && offset + 8 <= old(
                data,
            )@.len())
            &&& r is Ok ==> final(data)@ == splice(
                old(data)@,
                offset as int,
                u64_le_bytes((delta % 0x1_0000_0000_0000_0000) as u64),
            )
            &&& r is Err ==> final(data)@ == old(data)@
        }),
        match spec_write_eh_frame_pcrel_i64(old(data)@, offset as int, section_address, target) {
            Ok(b) => r is Ok && final(data)@ == b,
            Err(e) => r == Err::<(), EhFrameWriteError>(e) && final(data)@ == old(data)@,
        },
{
    if section_address > u64::MAX - (offset as u64) {
        return Err(EhFrameWriteError::AddressOverflow);
    }
    let field_address = section_address + offset as u64;
    let n = data.len();
    if offset > n || n - offset < 8 {
        return Err(EhFrameWriteError::Truncated);
    }
    let encoded: u64 = if target >= field_address {
        target - field_address
    } else {
        (0xffff_ffff_ffff_ffffu64 - (field_address - target)) + 1
    };
    proof {
        let delta = pcrel_delta(offset as int, section_address as int, target as int);
        assert(delta == target - field_address);
        if target >= field_address {
            vstd::arithmetic::div_mod::lemma_small_mod(delta as nat, 0x1_0000_0000_0000_0000nat);
        } else {
            vstd::arithmetic::div_mod::lemma_mod_add_multiples_vanish(
                delta,
                0x1_0000_0000_0000_0000int,
            );
            vstd::arithmetic::div_mod::lemma_small_mod(
                (delta + 0x1_0000_0000_0000_0000int) as nat,
                0x1_0000_0000_0000_0000nat,
            );
        }
        assert(encoded as int == delta % 0x1_0000_0000_0000_0000);
    }
    write_u64_at(data, offset, encoded);
    Ok(())
}

} // verus!
