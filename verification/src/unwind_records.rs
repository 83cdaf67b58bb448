//! The object-file `__compact_unwind` section: fixed 32-byte rows whose function, personality
//! and LSDA words are relocated by absolute 64-bit `ARM64_RELOC_UNSIGNED` records.
use vstd::prelude::*;
use std::collections::BTreeMap;
use crate::bytes::{le_u32, le_u64, read_u32_le, read_u64_le};
use crate::relocations::{RelocationInfo, ARM64_RELOC_UNSIGNED};

verus! {

broadcast use vstd::std_specs::btree::group_btree_axioms;

/// The size of one `__compact_unwind` row.
pub const COMPACT_UNWIND_RECORD_SIZE: usize = 32;

/// Why a `__compact_unwind` section was rejected.
#[derive(Debug, Clone, Copy, PartialEq, Eq)]
pub enum CompactUnwindReadError {
    /// The section is not a whole number of rows.
    MalformedSize,
    /// A field runs past the end of the section.
    TruncatedField,
    /// A relocation is not an absolute 64-bit `ARM64_RELOC_UNSIGNED`.
    UnsupportedRelocation,
    /// A relocation does not name a function, personality or LSDA word of a row.
    UnsupportedRelocationOffset,
    /// Two relocations name the same word.
    DuplicateRelocation,
    /// A row describes a function of length zero.
    ZeroLengthFunction,
    /// A row's function word has no relocation.
    MissingFunctionRelocation,
    /// A personality or LSDA word is nonzero but has no relocation.
    TargetWithoutRelocation,
}

/// One row as the object file holds it, with the relocations of its words.
#[derive(Debug, Clone, Copy, PartialEq, Eq)]
pub struct CompactUnwindRecord {
    pub record_offset: usize,
    pub function_addend: u64,
    pub function_length: u32,
    pub encoding: u32,
    pub personality_addend: u64,
    pub lsda_addend: u64,
    pub function_relocation: RelocationInfo,
    pub personality_relocation: Option<RelocationInfo>,
    pub lsda_relocation: Option<RelocationInfo>,
}

/// Reads the little-endian word at `offset`.
pub fn compact_unwind_u32(data: &[u8], offset: usize) -> (r: Result<u32, CompactUnwindReadError>)
    ensures
        offset + 4 <= data@.len() ==> r == Ok::<u32, CompactUnwindReadError>(
            le_u32(data@, offset as int) as u32,
        ),
        offset + 4 > data@.len() ==> r == Err::<u32, CompactUnwindReadError>(
            CompactUnwindReadError::TruncatedField,
        ),
{
    if offset > data.len() || data.len() - offset < 4 {
        return Err(CompactUnwindReadError::TruncatedField);
    }
    Ok(read_u32_le(data, offset))
}

/// Reads the little-endian doubleword at `offset`.
pub fn compact_unwind_u64(data: &[u8], offset: usize) -> (r: Result<u64, CompactUnwindReadError>)
    ensures
        offset + 8 <= data@.len() ==> r == Ok::<u64, CompactUnwindReadError>(
            le_u64(data@, offset as int) as u64,
        ),
        offset + 8 > data@.len() ==> r == Err::<u64, CompactUnwindReadError>(
            CompactUnwindReadError::TruncatedField,
        ),
{
    if offset > data.len() || data.len() - offset < 8 {
        return Err(CompactUnwindReadError::TruncatedField);
    }
    Ok(read_u64_le(data, offset))
}

/// Whether a relocation has the only form a `__compact_unwind` word takes.
pub open spec fn is_unsigned_pointer(r: RelocationInfo) -> bool {
    r.r_type == ARM64_RELOC_UNSIGNED && !r.r_pcrel && r.r_length == 3
}

/// Whether `offset` is the function, personality or LSDA word of a row of a section of `len`
/// bytes.
pub open spec fn is_pointer_word(offset: int, len: int) -> bool {
    &&& offset + 8 <= len
    &&& (offset % 32 == 0 || offset % 32 == 16 || offset % 32 == 24)
}

/// The relocations of the first `n` records by the offset of the word they relocate, or why
/// one of them is rejected.
pub open spec fn spec_relocations_by_offset(relocations: Seq<RelocationInfo>, len: int, n: int) -> Result<
    Map<usize, RelocationInfo>,
    CompactUnwindReadError,
>
    decreases n,
{
    if n <= 0 {
        Ok(Map::empty())
    } else {
        match spec_relocations_by_offset(relocations, len, n - 1) {
            Err(e) => Err(e),
            Ok(m) => {
                let r = relocations[n - 1];
                if !is_unsigned_pointer(r) {
                    Err(CompactUnwindReadError::UnsupportedRelocation)
                } else if !is_pointer_word(r.r_address as int, len) {
                    Err(CompactUnwindReadError::UnsupportedRelocationOffset)
                } else if m.contains_key(r.r_address as usize) {
                    Err(CompactUnwindReadError::DuplicateRelocation)
                } else {
                    Ok(m.insert(r.r_address as usize, r))
                }
            },
        }
    }
}

/// Why row `k` is rejected, if it is.
pub open spec fn record_error(data: Seq<u8>, relocations: Map<usize, RelocationInfo>, k: int) -> Option<
    CompactUnwindReadError,
> {
    let offset = k * 32;
    if le_u32(data, offset + 8) == 0 {
        Some(CompactUnwindReadError::ZeroLengthFunction)
    } else if !relocations.contains_key(offset as usize) {
        Some(CompactUnwindReadError::MissingFunctionRelocation)
    } else {
        None
    }
}

/// The first rejected row among the first `n`.
pub open spec fn first_record_error(data: Seq<u8>, relocations: Map<usize, RelocationInfo>, n: int) -> Option<
    CompactUnwindReadError,
>
    decreases n,
{
    if n <= 0 {
        None
    } else {
        match first_record_error(data, relocations, n - 1) {
            Some(e) => Some(e),
            None => record_error(data, relocations, n - 1),
        }
    }
}

/// The relocation of the word at `offset`, if any.
pub open spec fn relocation_at(relocations: Map<usize, RelocationInfo>, offset: int) -> Option<RelocationInfo> {
    if relocations.contains_key(offset as usize) {
        Some(relocations[offset as usize])
    } else {
        None
    }
}

/// Row `k`, read from the section.
pub open spec fn spec_record(data: Seq<u8>, relocations: Map<usize, RelocationInfo>, k: int) -> CompactUnwindRecord {
    let offset = k * 32;
    CompactUnwindRecord {
        record_offset: offset as usize,
        function_addend: le_u64(data, offset) as u64,
        function_length: le_u32(data, offset + 8) as u32,
        encoding: le_u32(data, offset + 12) as u32,
        personality_addend: le_u64(data, offset + 16) as u64,
        lsda_addend: le_u64(data, offset + 24) as u64,
        function_relocation: relocations[offset as usize],
        personality_relocation: relocation_at(relocations, offset + 16),
        lsda_relocation: relocation_at(relocations, offset + 24),
    }
}

/// Reads every row of a `__compact_unwind` section with the relocations of its words.
pub fn parse_compact_unwind_records(data: &[u8], relocations: &[RelocationInfo]) -> (r: Result<
    Vec<CompactUnwindRecord>,
    CompactUnwindReadError,
>)
    ensures
        data@.len() % 32 != 0 ==> r == Err::<Vec<CompactUnwindRecord>, CompactUnwindReadError>(
            CompactUnwindReadError::MalformedSize,
        ),
        data@.len() % 32 == 0 ==> match spec_relocations_by_offset(
            relocations@,
            data@.len() as int,
            relocations@.len() as int,
        ) {
            Err(e) => r == Err::<Vec<CompactUnwindRecord>, CompactUnwindReadError>(e),
            Ok(m) => match first_record_error(data@, m, (data@.len() / 32) as int) {
                Some(e) => r == Err::<Vec<CompactUnwindRecord>, CompactUnwindReadError>(e),
                None => r matches Ok(records) && records@ == Seq::new(
                    (data@.len() / 32) as nat,
                    |k: int| spec_record(data@, m, k),
                ),
            },
        },
{
    let len = data.len();
    if len % COMPACT_UNWIND_RECORD_SIZE != 0 {
        return Err(CompactUnwindReadError::MalformedSize);
    }
    let mut by_offset: BTreeMap<usize, RelocationInfo> = BTreeMap::new();
    let mut i: usize = 0;
    while i < relocations.len()
        invariant
            0 <= i <= relocations@.len(),
            len == data@.len(),
            len % 32 == 0,
            spec_relocations_by_offset(relocations@, len as int, i as int) == Ok::<
                Map<usize, RelocationInfo>,
                CompactUnwindReadError,
            >(by_offset@),
        decreases relocations@.len() - i,
    {
        let relocation = relocations[i];
        let e = if !(relocation.r_type == ARM64_RELOC_UNSIGNED && !relocation.r_pcrel
            && relocation.r_length == 3) {
            Some(CompactUnwindReadError::UnsupportedRelocation)
        } else {
            let offset = relocation.r_address as usize;
            if !(offset <= len && len - offset >= 8 && (offset % 32 == 0 || offset % 32 == 16
                || offset % 32 == 24)) {
                Some(CompactUnwindReadError::UnsupportedRelocationOffset)
            } else if by_offset.contains_key(&offset) {
                Some(CompactUnwindReadError::DuplicateRelocation)
            } else {
                None
            }
        };
        match e {
            Some(e) => {
                proof {
                    lemma_relocations_by_offset_error(relocations@, len as int, i + 1, relocations@.len() as int);
                }
                return Err(e);
            },
            None => {},
        }
        by_offset.insert(relocation.r_address as usize, relocation);
        i = i + 1;
    }
    let ghost m = by_offset@;
    let count = len / COMPACT_UNWIND_RECORD_SIZE;
    let mut records: Vec<CompactUnwindRecord> = Vec::new();
    let mut k: usize = 0;
    while k < count
        invariant
            0 <= k <= count,
            count == data@.len() / 32,
            len == data@.len(),
            len % 32 == 0,
            m == by_offset@,
            spec_relocations_by_offset(relocations@, len as int, relocations@.len() as int) == Ok::<
                Map<usize, RelocationInfo>,
                CompactUnwindReadError,
            >(m),
            first_record_error(data@, m, k as int) is None,
            records@ == Seq::new(k as nat, |j: int| spec_record(data@, m, j)),
        decreases count - k,
    {
        let offset = k * COMPACT_UNWIND_RECORD_SIZE;
        assert(offset + 32 <= len) by (nonlinear_arith)
            requires
                k < count,
                count == len / 32,
                offset == k * 32,
                len % 32 == 0,
        ;
        let function_addend = read_u64_le(data, offset);
        let function_length = read_u32_le(data, offset + 8);
        if function_length == 0 {
            proof {
                assert(record_error(data@, m, k as int) == Some(CompactUnwindReadError::ZeroLengthFunction));
                lemma_first_record_error_stays(data@, m, k + 1, count as int);
            }
            return Err(CompactUnwindReadError::ZeroLengthFunction);
        }
        let encoding = read_u32_le(data, offset + 12);
        let personality_addend = read_u64_le(data, offset + 16);
        let lsda_addend = read_u64_le(data, offset + 24);
        let function_relocation = match by_offset.get(&offset) {
            None => {
                proof {
                    assert(record_error(data@, m, k as int) == Some(CompactUnwindReadError::MissingFunctionRelocation));
                    lemma_first_record_error_stays(data@, m, k + 1, count as int);
                }
                return Err(CompactUnwindReadError::MissingFunctionRelocation);
            },
            Some(relocation) => *relocation,
        };
        let personality_relocation = match by_offset.get(&(offset + 16)) {
            None => None,
            Some(relocation) => Some(*relocation),
        };
        let lsda_relocation = match by_offset.get(&(offset + 24)) {
            None => None,
            Some(relocation) => Some(*relocation),
        };
        let record = CompactUnwindRecord {
            record_offset: offset,
            function_addend,
            function_length,
            encoding,
            personality_addend,
            lsda_addend,
            function_relocation,
            personality_relocation,
            lsda_relocation,
        };
        assert(record == spec_record(data@, m, k as int));
        records.push(record);
        assert(records@ =~= Seq::new((k + 1) as nat, |j: int| spec_record(data@, m, j)));
        k = k + 1;
    }
    Ok(records)
}

/// Once the first `k` relocations hold a rejected one, the first `n` hold the same one.
proof fn lemma_relocations_by_offset_error(relocations: Seq<RelocationInfo>, len: int, k: int, n: int)
    requires
        0 <= k <= n,
        spec_relocations_by_offset(relocations, len, k) is Err,
    ensures
        spec_relocations_by_offset(relocations, len, n) == spec_relocations_by_offset(relocations, len, k),
    decreases n - k,
{
    if n > k {
        lemma_relocations_by_offset_error(relocations, len, k, n - 1);
    }
}

/// Once the first `k` rows hold a rejected one, the first `n` hold the same one.
proof fn lemma_first_record_error_stays(data: Seq<u8>, relocations: Map<usize, RelocationInfo>, k: int, n: int)
    requires
        0 <= k <= n,
        first_record_error(data, relocations, k) is Some,
    ensures
        first_record_error(data, relocations, n) == first_record_error(data, relocations, k),
    decreases n - k,
{
    if n > k {
        lemma_first_record_error_stays(data, relocations, k, n - 1);
    }
}

/// The target of a personality or LSDA word: its relocation with the word as addend; a zero
/// word without a relocation names nothing, and a nonzero one is rejected.
pub fn compact_unwind_optional_target(relocation: Option<RelocationInfo>, addend: u64) -> (r: Result<
    Option<(RelocationInfo, u64)>,
    CompactUnwindReadError,
>)
    ensures
        relocation matches Some(rel) ==> r == Ok::<
            Option<(RelocationInfo, u64)>,
            CompactUnwindReadError,
        >(Some((rel, addend))),
        relocation is None && addend == 0 ==> r == Ok::<
            Option<(RelocationInfo, u64)>,
            CompactUnwindReadError,
        >(None),
        relocation is None && addend != 0 ==> r == Err::<
            Option<(RelocationInfo, u64)>,
            CompactUnwindReadError,
        >(CompactUnwindReadError::TargetWithoutRelocation),
{
    match relocation {
        Some(relocation) => Ok(Some((relocation, addend))),
        None => if addend == 0 {
            Ok(None)
        } else {
            Err(CompactUnwindReadError::TargetWithoutRelocation)
        },
    }
}

} // verus!
