//! The final `__TEXT,__unwind_info` table built from object-file compact-unwind rows.
use vstd::prelude::*;
use std::collections::BTreeMap;
use crate::bytes::{
    le_u32, lemma_le_u32_at, push_u16, push_u32, splice, u16_le_bytes, u32_le_bytes, write_u32_at,
    zeros,
};

verus! {

broadcast use vstd::std_specs::btree::group_btree_axioms;

/// The ARM64 compact-unwind mode field.
pub const ARM64_UNWIND_MODE_MASK: u32 = 0x0f00_0000;
/// The mode that delegates unwinding to an `__eh_frame` FDE.
pub const ARM64_UNWIND_MODE_DWARF: u32 = 0x0300_0000;
/// The low bits of a DWARF-mode encoding: the FDE's offset in `__eh_frame`.
pub const ARM64_UNWIND_DWARF_FDE_OFFSET_MASK: u32 = 0x00ff_ffff;
/// The generic "this row has an LSDA" bit.
pub const COMPACT_UNWIND_HAS_LSDA: u32 = 0x4000_0000;
/// The personality-index field of an encoding.
pub const COMPACT_UNWIND_PERSONALITY_MASK: u32 = 0x3000_0000;
/// The fixed size of an object-file compact-unwind record.
pub const COMPACT_UNWIND_ENTRY_SIZE: usize = 32;
/// The entries of one regular second-level page: the page header and its entries fit 4 KiB.
pub const COMPACT_UNWIND_REGULAR_PAGE_MAX_ENTRIES: usize = 511;

/// The source identity shared by one DWARF compact-unwind row and its input FDE: the input file,
/// the function's input section, and the function's offset within that section.
#[derive(Debug, Clone, Copy, PartialEq, Eq)]
pub struct EhFrameFdeIdentity {
    pub file_id: u32,
    pub function_section_index: usize,
    pub function_input_offset: u64,
}

impl EhFrameFdeIdentity {
    /// The identity as an ordered key.
    pub open spec fn spec_key(self) -> (u32, usize, u64) {
        (self.file_id, self.function_section_index, self.function_input_offset)
    }

    /// The identity as an ordered key.
    pub fn key(&self) -> (r: (u32, usize, u64))
        ensures
            r == self.spec_key(),
    {
        (self.file_id, self.function_section_index, self.function_input_offset)
    }
}

/// Final `__eh_frame` FDE offsets by input FDE identity key.
pub type FinalEhFrameFdeOffsets = BTreeMap<(u32, usize, u64), u32>;

/// A compact-unwind row with its targets resolved to final image addresses.
#[derive(Debug, Clone, Copy, PartialEq, Eq)]
pub struct CompactUnwindEntry {
    pub function_address: u64,
    pub function_length: u32,
    pub encoding: u32,
    pub eh_frame_fde_identity: Option<EhFrameFdeIdentity>,
    pub personality_address: Option<u64>,
    pub lsda_address: Option<u64>,
}

/// Why the unwind table could not be built.
#[derive(Debug, Clone, Copy, PartialEq, Eq)]
pub enum CompactUnwindError {
    /// A DWARF-mode row carries no input FDE identity.
    MissingFdeIdentity,
    /// No final FDE was emitted for a DWARF-mode row's identity.
    MissingFde,
    /// An FDE offset does not fit the 24-bit DWARF field.
    FdeOffsetTooLarge,
    /// An address lies below the image base or 4 GiB or more above it.
    AddressOutOfImage,
    /// A table offset or count does not fit its 32-bit field.
    TableTooLarge,
    /// A row's personality is not in the personality table.
    UnrecordedPersonality,
    /// Two rows' function ranges overlap.
    OverlappingFunctions,
    /// More than three distinct personality functions.
    TooManyPersonalities,
}

/// Whether `address` has a 32-bit offset from the image base.
pub open spec fn in_image(address: u64, image_base: u64) -> bool {
    image_base <= address && address - image_base <= u32::MAX
}

/// The 32-bit image offset of an address inside the image.
pub open spec fn image_offset(address: u64, image_base: u64) -> u32 {
    (address - image_base) as u32
}

/// An address inside the image is recorded at its offset from the image base: adding the base
/// back gives the address.
pub proof fn lemma_image_offset_roundtrip(address: u64, image_base: u64)
    requires
        in_image(address, image_base),
    ensures
        image_offset(address, image_base) + image_base == address,
{
}

/// The image offset of `address`, which must lie within 4 GiB above the image base.
pub fn compact_unwind_image_offset(address: u64, image_base: u64, _what: &str) -> (r: Result<
    u32,
    CompactUnwindError,
>)
    ensures
        in_image(address, image_base) ==> r == Ok::<u32, CompactUnwindError>(
            image_offset(address, image_base),
        ),
        !in_image(address, image_base) ==> r == Err::<u32, CompactUnwindError>(
            CompactUnwindError::AddressOutOfImage,
        ),
{
    if address < image_base {
        return Err(CompactUnwindError::AddressOutOfImage);
    }
    let offset = address - image_base;
    if offset > 0xffff_ffff {
        return Err(CompactUnwindError::AddressOutOfImage);
    }
    Ok(offset as u32)
}

/// An upper bound for the serialized table of `entry_count` input rows: header, up to three
/// personalities, one index per page plus the sentinel, one LSDA descriptor per row and the
/// regular pages.
pub open spec fn spec_compact_unwind_info_capacity(entry_count: int) -> int {
    if entry_count == 0 {
        0
    } else {
        let pages = (entry_count + 510) / 511;
        28 + 3 * 4 + (pages + 1) * 12 + entry_count * 8 + pages * 8 + entry_count * 8
    }
}

/// The space reserved for the final `__unwind_info` of `entry_count` input rows.
pub fn compact_unwind_info_capacity(entry_count: usize) -> (r: usize)
    requires
        spec_compact_unwind_info_capacity(entry_count as int) <= usize::MAX,
    ensures
        r == spec_compact_unwind_info_capacity(entry_count as int),
{
    if entry_count == 0 {
        return 0;
    }
    let page_count = entry_count / COMPACT_UNWIND_REGULAR_PAGE_MAX_ENTRIES + if entry_count
        % COMPACT_UNWIND_REGULAR_PAGE_MAX_ENTRIES == 0 {
        0
    } else {
        1
    };
    assert(page_count == (entry_count + 510) / 511);
    28 + 3 * 4 + (page_count + 1) * 12 + entry_count * 8 + page_count * 8 + entry_count * 8
}

/// A DWARF-mode row with its placeholder replaced by the final FDE offset; other rows unchanged.
pub open spec fn rewritten_entry(entry: CompactUnwindEntry, fde_offsets: Map<(u32, usize, u64), u32>) -> Result<
    CompactUnwindEntry,
    CompactUnwindError,
> {
    if entry.encoding & ARM64_UNWIND_MODE_MASK != ARM64_UNWIND_MODE_DWARF {
        Ok(entry)
    } else if entry.eh_frame_fde_identity is None {
        Err(CompactUnwindError::MissingFdeIdentity)
    } else if !fde_offsets.contains_key(entry.eh_frame_fde_identity->0.spec_key()) {
        Err(CompactUnwindError::MissingFde)
    } else {
        let offset = fde_offsets[entry.eh_frame_fde_identity->0.spec_key()];
        if offset > ARM64_UNWIND_DWARF_FDE_OFFSET_MASK {
            Err(CompactUnwindError::FdeOffsetTooLarge)
        } else {
            Ok(
                CompactUnwindEntry {
                    encoding: (entry.encoding & !ARM64_UNWIND_DWARF_FDE_OFFSET_MASK) | offset,
                    ..entry
                },
            )
        }
    }
}

/// Replaces the object-file placeholder in every DWARF-mode row with its FDE's final offset in
/// the rebuilt `__eh_frame`, keeping the mode and personality bits. Rows are rewritten in order;
/// the first row that cannot be rewritten stops the pass and leaves it and later rows unchanged.
pub fn rewrite_arm64_dwarf_fde_offsets(
    entries: &mut Vec<CompactUnwindEntry>,
    fde_offsets: &FinalEhFrameFdeOffsets,
) -> (r: Result<(), CompactUnwindError>)
    ensures
        final(entries)@.len() == old(entries)@.len(),
        r is Ok <==> forall|i: int|
            0 <= i < old(entries)@.len() ==> #[trigger] rewritten_entry(
                old(entries)@[i],
                fde_offsets@,
            ) is Ok,
        r is Ok ==> forall|i: int|
            0 <= i < old(entries)@.len() ==> Ok::<CompactUnwindEntry, CompactUnwindError>(
                #[trigger] final(entries)@[i],
            ) == rewritten_entry(old(entries)@[i], fde_offsets@),
        r matches Err(e) ==> exists|k: int|
            0 <= k < old(entries)@.len() && rewritten_entry(old(entries)@[k], fde_offsets@)
                == Err::<CompactUnwindEntry, CompactUnwindError>(e) && (forall|i: int|
                0 <= i < k ==> Ok::<CompactUnwindEntry, CompactUnwindError>(
                    #[trigger] final(entries)@[i],
                ) == rewritten_entry(old(entries)@[i], fde_offsets@)) && (forall|i: int|
                k <= i < old(entries)@.len() ==> #[trigger] final(entries)@[i] == old(
                    entries,
                )@[i]),
{
    let ghost original = entries@;
    let mut i: usize = 0;
    while i < entries.len()
        invariant
            entries@.len() == original.len(),
            original == old(entries)@,
            0 <= i <= entries@.len(),
            forall|j: int|
                0 <= j < i ==> Ok::<CompactUnwindEntry, CompactUnwindError>(#[trigger] entries@[j])
                    == rewritten_entry(original[j], fde_offsets@),
            forall|j: int| i <= j < entries@.len() ==> #[trigger] entries@[j] == original[j],
        decreases entries@.len() - i,
    {
        let entry = entries[i];
        if entry.encoding & ARM64_UNWIND_MODE_MASK == ARM64_UNWIND_MODE_DWARF {
            let identity = match entry.eh_frame_fde_identity {
                Some(identity) => identity,
                None => {
                    return Err(CompactUnwindError::MissingFdeIdentity);
                },
            };
            let fde_offset = match fde_offsets.get(&identity.key()) {
                Some(offset) => *offset,
                None => {
                    return Err(CompactUnwindError::MissingFde);
                },
            };
            if fde_offset > ARM64_UNWIND_DWARF_FDE_OFFSET_MASK {
                return Err(CompactUnwindError::FdeOffsetTooLarge);
            }
            let updated = CompactUnwindEntry {
                encoding: (entry.encoding & !ARM64_UNWIND_DWARF_FDE_OFFSET_MASK) | fde_offset,
                ..entry
            };
            entries.set(i, updated);
        }
        i = i + 1;
    }
    assert forall|j: int| 0 <= j < original.len() implies #[trigger] rewritten_entry(
        original[j],
        fde_offsets@,
    ) is Ok by {
        assert(Ok::<CompactUnwindEntry, CompactUnwindError>(entries@[j]) == rewritten_entry(
            original[j],
            fde_offsets@,
        ));
    }
    Ok(())
}


// ---------------------------------------------------------------------------------------------
// Serialization
// ---------------------------------------------------------------------------------------------

/// The number of regular second-level pages for `n` rows.
pub open spec fn num_pages(n: int) -> int {
    (n + 510) / 511
}

/// The rows of page `p`: the `p`-th run of up to 511 consecutive rows.
pub open spec fn page_of(entries: Seq<CompactUnwindEntry>, p: int) -> Seq<CompactUnwindEntry> {
    let start = p * 511;
    let end = if start + 511 < entries.len() {
        start + 511
    } else {
        entries.len() as int
    };
    entries.subrange(start, end)
}

/// The LSDA descriptors of a page: a function offset and an LSDA offset for each row with an LSDA.
pub open spec fn lsda_rows(page: Seq<CompactUnwindEntry>, image_base: u64) -> Seq<u8>
    decreases page.len(),
{
    if page.len() == 0 {
        Seq::empty()
    } else {
        let e = page.last();
        lsda_rows(page.drop_last(), image_base) + if e.lsda_address is Some {
            u32_le_bytes(image_offset(e.function_address, image_base)) + u32_le_bytes(
                image_offset(e.lsda_address->0, image_base),
            )
        } else {
            Seq::empty()
        }
    }
}

/// The LSDA descriptors of the first `p` pages.
pub open spec fn lsda_region(entries: Seq<CompactUnwindEntry>, p: int, image_base: u64) -> Seq<u8>
    decreases p,
{
    if p <= 0 {
        Seq::empty()
    } else {
        lsda_region(entries, p - 1, image_base) + lsda_rows(page_of(entries, p - 1), image_base)
    }
}

/// `i` is the first position of `x` in `s`.
pub open spec fn is_first_index(s: Seq<u64>, x: u64, i: int) -> bool {
    &&& 0 <= i < s.len()
    &&& s[i] == x
    &&& forall|j: int| 0 <= j < i ==> s[j] != x
}

/// The first position of `x` in `s`.
pub open spec fn personality_index(s: Seq<u64>, x: u64) -> int {
    choose|i: int| is_first_index(s, x, i)
}

/// A row's final encoding: the LSDA bit says whether the row has an LSDA, and the personality
/// field holds one plus the personality's position in the personality table.
pub open spec fn final_encoding(e: CompactUnwindEntry, personalities: Seq<u64>) -> u32 {
    let cleared = e.encoding & !(COMPACT_UNWIND_PERSONALITY_MASK | COMPACT_UNWIND_HAS_LSDA);
    let with_lsda = if e.lsda_address is Some {
        cleared | COMPACT_UNWIND_HAS_LSDA
    } else {
        cleared
    };
    if e.personality_address is Some {
        with_lsda | (((personality_index(personalities, e.personality_address->0) + 1) as u32)
            << 28u32)
    } else {
        with_lsda
    }
}

/// The rows of a regular page: function offset and final encoding of each row.
pub open spec fn page_rows(page: Seq<CompactUnwindEntry>, personalities: Seq<u64>, image_base: u64) -> Seq<u8>
    decreases page.len(),
{
    if page.len() == 0 {
        Seq::empty()
    } else {
        let e = page.last();
        page_rows(page.drop_last(), personalities, image_base) + u32_le_bytes(
            image_offset(e.function_address, image_base),
        ) + u32_le_bytes(final_encoding(e, personalities))
    }
}

/// A regular second-level page: kind 2, an 8-byte header, the row count, then the rows.
pub open spec fn page_bytes(page: Seq<CompactUnwindEntry>, personalities: Seq<u64>, image_base: u64) -> Seq<u8> {
    u32_le_bytes(2) + u16_le_bytes(8) + u16_le_bytes(page.len() as u16) + page_rows(
        page,
        personalities,
        image_base,
    )
}

/// The first `p` pages.
pub open spec fn page_region(
    entries: Seq<CompactUnwindEntry>,
    p: int,
    personalities: Seq<u64>,
    image_base: u64,
) -> Seq<u8>
    decreases p,
{
    if p <= 0 {
        Seq::empty()
    } else {
        page_region(entries, p - 1, personalities, image_base) + page_bytes(
            page_of(entries, p - 1),
            personalities,
            image_base,
        )
    }
}

/// The personality table: the image offset of each personality function.
pub open spec fn personality_bytes(personalities: Seq<u64>, image_base: u64) -> Seq<u8>
    decreases personalities.len(),
{
    if personalities.len() == 0 {
        Seq::empty()
    } else {
        personality_bytes(personalities.drop_last(), image_base) + u32_le_bytes(
            image_offset(personalities.last(), image_base),
        )
    }
}

/// The header: version 1, the 28-byte common-encodings array (empty), the personality table
/// and the index, each as an offset and a count.
pub open spec fn header_bytes(n: int, personality_count: int) -> Seq<u8> {
    u32_le_bytes(1) + u32_le_bytes(28) + u32_le_bytes(0) + u32_le_bytes(28) + u32_le_bytes(
        personality_count as u32,
    ) + u32_le_bytes((28 + 4 * personality_count) as u32) + u32_le_bytes(
        (num_pages(n) + 1) as u32,
    )
}

/// Where the LSDA descriptors begin: after the header, personalities and index.
pub open spec fn lsda_start(n: int, personality_count: int) -> int {
    28 + 4 * personality_count + 12 * (num_pages(n) + 1)
}

/// Where the pages begin: after all LSDA descriptors.
pub open spec fn lsda_end(entries: Seq<CompactUnwindEntry>, personality_count: int, image_base: u64) -> int {
    lsda_start(entries.len() as int, personality_count) + lsda_region(
        entries,
        num_pages(entries.len() as int),
        image_base,
    ).len()
}

/// The offset of page `p`'s LSDA descriptors.
pub open spec fn lsda_offset(entries: Seq<CompactUnwindEntry>, p: int, personality_count: int, image_base: u64) -> int {
    lsda_start(entries.len() as int, personality_count) + lsda_region(entries, p, image_base).len()
}

/// The offset of page `p`.
pub open spec fn page_offset(
    entries: Seq<CompactUnwindEntry>,
    p: int,
    personalities: Seq<u64>,
    image_base: u64,
) -> int {
    lsda_end(entries, personalities.len() as int, image_base) + page_region(
        entries,
        p,
        personalities,
        image_base,
    ).len()
}

/// The index entry of page `p`: its first function, its page, and its LSDA descriptors.
pub open spec fn index_entry(
    entries: Seq<CompactUnwindEntry>,
    p: int,
    personalities: Seq<u64>,
    image_base: u64,
) -> Seq<u8> {
    u32_le_bytes(image_offset(page_of(entries, p)[0].function_address, image_base)) + u32_le_bytes(
        page_offset(entries, p, personalities, image_base) as u32,
    ) + u32_le_bytes(lsda_offset(entries, p, personalities.len() as int, image_base) as u32)
}

/// The index entries of the first `p` pages.
pub open spec fn index_table(
    entries: Seq<CompactUnwindEntry>,
    p: int,
    personalities: Seq<u64>,
    image_base: u64,
) -> Seq<u8>
    decreases p,
{
    if p <= 0 {
        Seq::empty()
    } else {
        index_table(entries, p - 1, personalities, image_base) + index_entry(
            entries,
            p - 1,
            personalities,
            image_base,
        )
    }
}

/// The end of the last function, or zero for an empty table.
pub open spec fn sentinel_function(entries: Seq<CompactUnwindEntry>) -> u64 {
    if entries.len() == 0 {
        0
    } else {
        (entries.last().function_address + entries.last().function_length) as u64
    }
}

/// The sentinel index entry: the end of the last function, no page, and the end of the LSDA
/// descriptors.
pub open spec fn sentinel_entry(entries: Seq<CompactUnwindEntry>, personality_count: int, image_base: u64) -> Seq<u8> {
    u32_le_bytes(image_offset(sentinel_function(entries), image_base)) + u32_le_bytes(0)
        + u32_le_bytes(lsda_end(entries, personality_count, image_base) as u32)
}

/// The complete `__unwind_info` of `entries`.
#[verifier::opaque]
pub open spec fn spec_unwind_info(entries: Seq<CompactUnwindEntry>, personalities: Seq<u64>, image_base: u64) -> Seq<u8> {
    let n = entries.len() as int;
    let pages = num_pages(n);
    header_bytes(n, personalities.len() as int) + personality_bytes(personalities, image_base)
        + index_table(entries, pages, personalities, image_base) + sentinel_entry(
        entries,
        personalities.len() as int,
        image_base,
    ) + lsda_region(entries, pages, image_base) + page_region(
        entries,
        pages,
        personalities,
        image_base,
    )
}

/// Whether every address and table offset of the table fits its 32-bit field and every row's
/// personality is in the personality table.
#[verifier::opaque]
pub open spec fn unwind_info_fits(entries: Seq<CompactUnwindEntry>, personalities: Seq<u64>, image_base: u64) -> bool {
    let n = entries.len() as int;
    let pages = num_pages(n);
    let pc = personalities.len() as int;
    &&& 28 + 4 * pc <= u32::MAX
    &&& pages + 1 <= u32::MAX
    &&& forall|i: int| 0 <= i < pc ==> in_image(#[trigger] personalities[i], image_base)
    &&& forall|i: int|
        0 <= i < n ==> in_image(#[trigger] entries[i].function_address, image_base)
    &&& forall|i: int|
        0 <= i < n && #[trigger] entries[i].lsda_address is Some ==> in_image(
            entries[i].lsda_address->0,
            image_base,
        )
    &&& forall|i: int|
        0 <= i < n && #[trigger] entries[i].personality_address is Some ==> personalities.contains(
            entries[i].personality_address->0,
        )
    &&& forall|p: int| 0 <= p < pages ==> lsda_offset(entries, p, pc, image_base) <= u32::MAX
    &&& lsda_end(entries, pc, image_base) <= u32::MAX
    &&& forall|p: int|
        0 <= p < pages ==> page_offset(entries, p, personalities, image_base) <= u32::MAX
    &&& in_image(sentinel_function(entries), image_base)
}



/// Writing `w` over the start of a zero run that follows `a` keeps the rest of the buffer.
pub proof fn lemma_splice_over_zeros(a: Seq<u8>, w: Seq<u8>, k: int, rest: Seq<u8>)
    requires
        w.len() <= k,
    ensures
        splice(a + zeros(k) + rest, a.len() as int, w) == a + w + zeros(k - w.len()) + rest,
{
    let lhs = splice(a + zeros(k) + rest, a.len() as int, w);
    let rhs = a + w + zeros(k - w.len()) + rest;
    assert(lhs =~= rhs);
}

/// The personality table takes four bytes per personality.
proof fn lemma_personality_bytes_len(personalities: Seq<u64>, image_base: u64)
    ensures
        personality_bytes(personalities, image_base).len() == 4 * personalities.len(),
    decreases personalities.len(),
{
    if personalities.len() > 0 {
        lemma_personality_bytes_len(personalities.drop_last(), image_base);
    }
}

/// Appends the image offset of every personality function.
/// The errors that building the table can end with.
pub open spec fn is_table_error(e: CompactUnwindError) -> bool {
    e == CompactUnwindError::AddressOutOfImage || e == CompactUnwindError::UnrecordedPersonality
        || e == CompactUnwindError::TableTooLarge
}

fn push_personality_offsets(data: &mut Vec<u8>, personalities: &[u64], image_base: u64) -> (r:
    Result<(), CompactUnwindError>)
    ensures
        r matches Err(e) ==> is_table_error(e),
        r is Ok <==> forall|i: int|
            0 <= i < personalities@.len() ==> in_image(#[trigger] personalities@[i], image_base),
        r is Ok ==> final(data)@ == old(data)@ + personality_bytes(personalities@, image_base),
{
    let mut i: usize = 0;
    while i < personalities.len()
        invariant
            0 <= i <= personalities@.len(),
            forall|j: int| 0 <= j < i ==> in_image(#[trigger] personalities@[j], image_base),
            data@ == old(data)@ + personality_bytes(personalities@.take(i as int), image_base),
        decreases personalities@.len() - i,
    {
        let offset = compact_unwind_image_offset(personalities[i], image_base, "personality")?;
        assert(personalities@.take(i + 1).drop_last() =~= personalities@.take(i as int));
        push_u32(data, offset);
        i = i + 1;
    }
    assert(personalities@.take(personalities@.len() as int) =~= personalities@);
    Ok(())
}

/// Appends the LSDA descriptors of `entries[start..end]`.
fn push_lsda_rows(
    data: &mut Vec<u8>,
    entries: &[CompactUnwindEntry],
    start: usize,
    end: usize,
    image_base: u64,
) -> (r: Result<(), CompactUnwindError>)
    requires
        start <= end <= entries@.len(),
    ensures
        r matches Err(e) ==> is_table_error(e),
        r is Ok <==> forall|i: int|
            start <= i < end && (#[trigger] entries@[i]).lsda_address is Some ==> in_image(
                entries@[i].function_address,
                image_base,
            ) && in_image(entries@[i].lsda_address->0, image_base),
        r is Ok ==> final(data)@ == old(data)@ + lsda_rows(
            entries@.subrange(start as int, end as int),
            image_base,
        ),
{
    let mut i: usize = start;
    while i < end
        invariant
            start <= i <= end <= entries@.len(),
            forall|j: int|
                start <= j < i && (#[trigger] entries@[j]).lsda_address is Some ==> in_image(
                    entries@[j].function_address,
                    image_base,
                ) && in_image(entries@[j].lsda_address->0, image_base),
            data@ == old(data)@ + lsda_rows(entries@.subrange(start as int, i as int), image_base),
        decreases end - i,
    {
        let entry = entries[i];
        assert(entries@.subrange(start as int, i + 1).drop_last() =~= entries@.subrange(
            start as int,
            i as int,
        ));
        if let Some(lsda) = entry.lsda_address {
            let function = compact_unwind_image_offset(entry.function_address, image_base, "function")?;
            let lsda_offset = compact_unwind_image_offset(lsda, image_base, "LSDA")?;
            push_u32(data, function);
            push_u32(data, lsda_offset);
        }
        i = i + 1;
    }
    Ok(())
}

/// The first position of `x` in `s`, if any.
fn personality_position(s: &[u64], x: u64) -> (r: Option<usize>)
    ensures
        r matches Some(i) ==> is_first_index(s@, x, i as int),
        r is None ==> !s@.contains(x),
{
    let mut i: usize = 0;
    while i < s.len()
        invariant
            0 <= i <= s@.len(),
            forall|j: int| 0 <= j < i ==> s@[j] != x,
        decreases s@.len() - i,
    {
        if s[i] == x {
            return Some(i);
        }
        i = i + 1;
    }
    None
}

/// Appends the rows of `entries[start..end]` as regular-page rows.
fn push_page_rows(
    data: &mut Vec<u8>,
    entries: &[CompactUnwindEntry],
    start: usize,
    end: usize,
    personalities: &[u64],
    image_base: u64,
) -> (r: Result<(), CompactUnwindError>)
    requires
        start <= end <= entries@.len(),
        personalities@.len() < u32::MAX,
    ensures
        r matches Err(e) ==> is_table_error(e),
        r is Ok <==> forall|i: int|
            start <= i < end ==> in_image((#[trigger] entries@[i]).function_address, image_base) && (
            entries@[i].personality_address is Some ==> personalities@.contains(
                entries@[i].personality_address->0,
            )),
        r is Ok ==> final(data)@ == old(data)@ + page_rows(
            entries@.subrange(start as int, end as int),
            personalities@,
            image_base,
        ),
{
    let mut i: usize = start;
    while i < end
        invariant
            start <= i <= end <= entries@.len(),
            personalities@.len() < u32::MAX,
            forall|j: int|
                start <= j < i ==> in_image((#[trigger] entries@[j]).function_address, image_base)
                    && (entries@[j].personality_address is Some ==> personalities@.contains(
                    entries@[j].personality_address->0,
                )),
            data@ == old(data)@ + page_rows(
                entries@.subrange(start as int, i as int),
                personalities@,
                image_base,
            ),
        decreases end - i,
    {
        let entry = entries[i];
        assert(entries@.subrange(start as int, i + 1).drop_last() =~= entries@.subrange(
            start as int,
            i as int,
        ));
        let mut encoding = entry.encoding & !(COMPACT_UNWIND_PERSONALITY_MASK
            | COMPACT_UNWIND_HAS_LSDA);
        if entry.lsda_address.is_some() {
            encoding = encoding | COMPACT_UNWIND_HAS_LSDA;
        }
        if let Some(personality) = entry.personality_address {
            let index = match personality_position(personalities, personality) {
                Some(index) => index,
                None => {
                    return Err(CompactUnwindError::UnrecordedPersonality);
                },
            };
            proof {
                assert(is_first_index(personalities@, personality, index as int));
                assert(personality_index(personalities@, personality) == index as int) by {
                    let k = personality_index(personalities@, personality);
                    assert(is_first_index(personalities@, personality, k));
                    if k < index {
                        assert(personalities@[k] != personality);
                    } else if index < k {
                        assert(personalities@[index as int] != personality);
                    }
                }
            }
            encoding = encoding | (((index + 1) as u32) << 28u32);
        }
        assert(encoding == final_encoding(entry, personalities@));
        let function = compact_unwind_image_offset(entry.function_address, image_base, "function")?;
        push_u32(data, function);
        push_u32(data, encoding);
        i = i + 1;
    }
    Ok(())
}


/// Appends `k` zero bytes.
fn push_zeros(data: &mut Vec<u8>, k: usize)
    ensures
        final(data)@ == old(data)@ + zeros(k as int),
{
    let mut i: usize = 0;
    while i < k
        invariant
            0 <= i <= k,
            data@ == old(data)@ + zeros(i as int),
        decreases k - i,
    {
        data.push(0u8);
        i = i + 1;
        assert(data@ =~= old(data)@ + zeros(i as int));
    }
}

/// Overwrites the twelve bytes at `off` with three little-endian words.
fn write_index_entry(data: &mut Vec<u8>, off: usize, a: u32, b: u32, c: u32)
    requires
        off + 12 <= old(data)@.len(),
    ensures
        final(data)@ == splice(
            old(data)@,
            off as int,
            u32_le_bytes(a) + u32_le_bytes(b) + u32_le_bytes(c),
        ),
{
    let ghost d0 = data@;
    let len = data.len();
    assert(off + 12 <= len);
    write_u32_at(data.as_mut_slice(), off, a);
    let ghost d1 = data@;
    write_u32_at(data.as_mut_slice(), off + 4, b);
    let ghost d2 = data@;
    write_u32_at(data.as_mut_slice(), off + 8, c);
    assert(data@ =~= splice(d0, off as int, u32_le_bytes(a) + u32_le_bytes(b) + u32_le_bytes(c)));
}

/// Whether the LSDA descriptor offsets fit and every row with an LSDA has in-image addresses.
pub open spec fn lsda_phase_fits(entries: Seq<CompactUnwindEntry>, pc: int, image_base: u64) -> bool {
    let n = entries.len() as int;
    &&& forall|p: int|
        0 <= p < num_pages(n) ==> lsda_offset(entries, p, pc, image_base) <= u32::MAX
    &&& forall|i: int|
        0 <= i < n && (#[trigger] entries[i]).lsda_address is Some ==> in_image(
            entries[i].function_address,
            image_base,
        ) && in_image(entries[i].lsda_address->0, image_base)
}

/// Appends the LSDA descriptors of every page and returns each page's descriptor offset.
fn lsda_phase(data: &mut Vec<u8>, entries: &[CompactUnwindEntry], pc: usize, image_base: u64) -> (r:
    Result<Vec<u32>, CompactUnwindError>)
    requires
        old(data)@.len() == lsda_start(entries@.len() as int, pc as int),
    ensures
        r matches Err(e) ==> is_table_error(e),
        r is Ok <==> lsda_phase_fits(entries@, pc as int, image_base),
        r matches Ok(offsets) ==> {
            &&& final(data)@ == old(data)@ + lsda_region(
                entries@,
                num_pages(entries@.len() as int),
                image_base,
            )
            &&& offsets@.len() == num_pages(entries@.len() as int)
            &&& forall|q: int|
                0 <= q < offsets@.len() ==> #[trigger] offsets@[q] as int == lsda_offset(
                    entries@,
                    q,
                    pc as int,
                    image_base,
                )
        },
{
    let n = entries.len();
    let pages = n / 511 + if n % 511 == 0 {
        0
    } else {
        1
    };
    assert(pages == num_pages(n as int));
    let mut offsets: Vec<u32> = Vec::new();
    let mut p: usize = 0;
    while p < pages
        invariant
            n == entries@.len(),
            pages == num_pages(n as int),
            0 <= p <= pages,
            data@ == old(data)@ + lsda_region(entries@, p as int, image_base),
            old(data)@.len() == lsda_start(n as int, pc as int),
            offsets@.len() == p,
            forall|q: int|
                0 <= q < p ==> #[trigger] offsets@[q] as int == lsda_offset(
                    entries@,
                    q,
                    pc as int,
                    image_base,
                ),
            forall|q: int|
                0 <= q < p ==> lsda_offset(entries@, q, pc as int, image_base) <= u32::MAX,
            forall|i: int|
                0 <= i < p * 511 && i < n && (#[trigger] entries@[i]).lsda_address is Some
                    ==> in_image(entries@[i].function_address, image_base) && in_image(
                    entries@[i].lsda_address->0,
                    image_base,
                ),
        decreases pages - p,
    {
        let start = p * 511;
        let end = if n - start > 511 {
            start + 511
        } else {
            n
        };
        assert(entries@.subrange(start as int, end as int) =~= page_of(entries@, p as int));
        let offset = data.len();
        assert(offset as int == lsda_offset(entries@, p as int, pc as int, image_base));
        if offset > 0xffff_ffff {
            return Err(CompactUnwindError::TableTooLarge);
        }
        offsets.push(offset as u32);
        let pushed = push_lsda_rows(data, entries, start, end, image_base);
        if pushed.is_err() {
            return Err(CompactUnwindError::AddressOutOfImage);
        }
        assert(data@ =~= old(data)@ + lsda_region(entries@, p + 1, image_base));
        p = p + 1;
    }
    Ok(offsets)
}

/// Whether the page offsets fit and every row has an in-image function and a recorded
/// personality.
pub open spec fn page_phase_fits(entries: Seq<CompactUnwindEntry>, personalities: Seq<u64>, image_base: u64) -> bool {
    let n = entries.len() as int;
    &&& forall|p: int|
        0 <= p < num_pages(n) ==> page_offset(entries, p, personalities, image_base) <= u32::MAX
    &&& forall|i: int|
        0 <= i < n ==> in_image((#[trigger] entries[i]).function_address, image_base) && (
        entries[i].personality_address is Some ==> personalities.contains(
            entries[i].personality_address->0,
        ))
}

/// Appends every regular page and returns each page's offset.
fn page_phase(
    data: &mut Vec<u8>,
    entries: &[CompactUnwindEntry],
    personalities: &[u64],
    image_base: u64,
) -> (r: Result<Vec<u32>, CompactUnwindError>)
    requires
        old(data)@.len() == lsda_end(entries@, personalities@.len() as int, image_base),
        personalities@.len() < u32::MAX,
    ensures
        r matches Err(e) ==> is_table_error(e),
        r is Ok <==> page_phase_fits(entries@, personalities@, image_base),
        r matches Ok(offsets) ==> {
            &&& final(data)@ == old(data)@ + page_region(
                entries@,
                num_pages(entries@.len() as int),
                personalities@,
                image_base,
            )
            &&& offsets@.len() == num_pages(entries@.len() as int)
            &&& forall|q: int|
                0 <= q < offsets@.len() ==> #[trigger] offsets@[q] as int == page_offset(
                    entries@,
                    q,
                    personalities@,
                    image_base,
                )
        },
{
    let n = entries.len();
    let pages = n / 511 + if n % 511 == 0 {
        0
    } else {
        1
    };
    assert(pages == num_pages(n as int));
    let mut offsets: Vec<u32> = Vec::new();
    let mut p: usize = 0;
    while p < pages
        invariant
            n == entries@.len(),
            pages == num_pages(n as int),
            personalities@.len() < u32::MAX,
            0 <= p <= pages,
            old(data)@.len() == lsda_end(entries@, personalities@.len() as int, image_base),
            data@ == old(data)@ + page_region(entries@, p as int, personalities@, image_base),
            offsets@.len() == p,
            forall|q: int|
                0 <= q < p ==> #[trigger] offsets@[q] as int == page_offset(
                    entries@,
                    q,
                    personalities@,
                    image_base,
                ),
            forall|q: int|
                0 <= q < p ==> page_offset(entries@, q, personalities@, image_base) <= u32::MAX,
            forall|i: int|
                0 <= i < p * 511 && i < n ==> in_image(
                    (#[trigger] entries@[i]).function_address,
                    image_base,
                ) && (entries@[i].personality_address is Some ==> personalities@.contains(
                    entries@[i].personality_address->0,
                )),
        decreases pages - p,
    {
        let start = p * 511;
        let end = if n - start > 511 {
            start + 511
        } else {
            n
        };
        assert(entries@.subrange(start as int, end as int) =~= page_of(entries@, p as int));
        let offset = data.len();
        assert(offset as int == page_offset(entries@, p as int, personalities@, image_base));
        if offset > 0xffff_ffff {
            return Err(CompactUnwindError::TableTooLarge);
        }
        offsets.push(offset as u32);
        push_u32(data, 2);
        push_u16(data, 8);
        push_u16(data, (end - start) as u16);
        let pushed = push_page_rows(data, entries, start, end, personalities, image_base);
        if let Err(e) = pushed {
            return Err(e);
        }
        assert(data@ =~= old(data)@ + page_region(entries@, p + 1, personalities@, image_base));
        p = p + 1;
    }
    Ok(offsets)
}

/// Page `p` of `n` rows starts at row `511 * p`, which exists.
proof fn lemma_page_start(n: int, p: int)
    requires
        0 <= n,
        0 <= p < num_pages(n),
    ensures
        0 <= p * 511 < n,
        p * 12 + 12 <= num_pages(n) * 12,
{
    assert(0 <= p * 511 < n) by (nonlinear_arith)
        requires
            0 <= n,
            0 <= p < (n + 510) / 511,
    ;
}

/// Writing index entry `p` over the start of the zeroed tail of the index table extends the
/// written part by that entry.
proof fn lemma_index_step(
    head: Seq<u8>,
    entries: Seq<CompactUnwindEntry>,
    p: int,
    personalities: Seq<u64>,
    image_base: u64,
    function: u32,
    page_off: u32,
    lsda_off: u32,
    rest: Seq<u8>,
)
    requires
        0 <= p < num_pages(entries.len() as int),
        function == image_offset(entries[p * 511].function_address, image_base),
        page_off as int == page_offset(entries, p, personalities, image_base),
        lsda_off as int == lsda_offset(entries, p, personalities.len() as int, image_base),
    ensures
        splice(
            head + index_table(entries, p, personalities, image_base) + zeros(
                12 * (num_pages(entries.len() as int) + 1) - 12 * p,
            ) + rest,
            head.len() + 12 * p,
            u32_le_bytes(function) + u32_le_bytes(page_off) + u32_le_bytes(lsda_off),
        ) == head + index_table(entries, p + 1, personalities, image_base) + zeros(
            12 * (num_pages(entries.len() as int) + 1) - 12 * (p + 1),
        ) + rest,
{
    let pages = num_pages(entries.len() as int);
    lemma_page_start(entries.len() as int, p);
    assert(page_of(entries, p)[0] == entries[p * 511]);
    let w = u32_le_bytes(function) + u32_le_bytes(page_off) + u32_le_bytes(lsda_off);
    assert(w =~= index_entry(entries, p, personalities, image_base));
    lemma_index_table_len(entries, p, personalities, image_base);
    let a = head + index_table(entries, p, personalities, image_base);
    lemma_splice_over_zeros(a, w, 12 * (pages + 1) - 12 * p, rest);
    assert(a + w =~= head + index_table(entries, p + 1, personalities, image_base));
}

/// The index entries of `p` pages take twelve bytes each.
proof fn lemma_index_table_len(
    entries: Seq<CompactUnwindEntry>,
    p: int,
    personalities: Seq<u64>,
    image_base: u64,
)
    requires
        0 <= p,
    ensures
        index_table(entries, p, personalities, image_base).len() == 12 * p,
    decreases p,
{
    if p > 0 {
        lemma_index_table_len(entries, p - 1, personalities, image_base);
    }
}

/// Writes the index entries of every page over the zeroed index table that follows `head`.
#[verifier::rlimit(40)]
fn index_phase(
    data: &mut Vec<u8>,
    entries: &[CompactUnwindEntry],
    personalities: &[u64],
    image_base: u64,
    page_offsets: &Vec<u32>,
    lsda_offsets: &Vec<u32>,
    index_start: usize,
    Ghost(head): Ghost<Seq<u8>>,
    Ghost(rest): Ghost<Seq<u8>>,
)
    requires
        page_offsets@.len() == num_pages(entries@.len() as int),
        lsda_offsets@.len() == num_pages(entries@.len() as int),
        forall|q: int|
            0 <= q < lsda_offsets@.len() ==> #[trigger] lsda_offsets@[q] as int == lsda_offset(
                entries@,
                q,
                personalities@.len() as int,
                image_base,
            ),
        forall|q: int|
            0 <= q < page_offsets@.len() ==> #[trigger] page_offsets@[q] as int == page_offset(
                entries@,
                q,
                personalities@,
                image_base,
            ),
        forall|i: int|
            0 <= i < entries@.len() ==> in_image(
                (#[trigger] entries@[i]).function_address,
                image_base,
            ),
        old(data)@ == head + zeros(12 * (num_pages(entries@.len() as int) + 1)) + rest,
        index_start == head.len(),
    ensures
        final(data)@ == head + index_table(
            entries@,
            num_pages(entries@.len() as int),
            personalities@,
            image_base,
        ) + zeros(12) + rest,
{
    let n = entries.len();
    let pages = page_offsets.len();
    let total = data.len();
    let mut p: usize = 0;
    while p < pages
        invariant
            n == entries@.len(),
            pages == num_pages(n as int),
            page_offsets@.len() == pages,
            lsda_offsets@.len() == pages,
            index_start == head.len(),
            total == data@.len(),
            index_start + 12 * (pages + 1) <= total,
            forall|q: int|
                0 <= q < pages ==> #[trigger] lsda_offsets@[q] as int == lsda_offset(
                    entries@,
                    q,
                    personalities@.len() as int,
                    image_base,
                ),
            forall|q: int|
                0 <= q < pages ==> #[trigger] page_offsets@[q] as int == page_offset(
                    entries@,
                    q,
                    personalities@,
                    image_base,
                ),
            forall|i: int|
                0 <= i < n ==> in_image((#[trigger] entries@[i]).function_address, image_base),
            0 <= p <= pages,
            data@ == head + index_table(entries@, p as int, personalities@, image_base) + zeros(
                12 * (pages + 1) - 12 * p,
            ) + rest,
        decreases pages - p,
    {
        proof {
            lemma_page_start(n as int, p as int);
        }
        let start = p * 511;
        let function = (entries[start].function_address - image_base) as u32;
        let page_off = page_offsets[p];
        let lsda_off = lsda_offsets[p];
        proof {
            lemma_index_step(
                head,
                entries@,
                p as int,
                personalities@,
                image_base,
                function,
                page_off,
                lsda_off,
                rest,
            );
        }
        write_index_entry(data, index_start + 12 * p, function, page_off, lsda_off);
        p = p + 1;
    }
}

/// The table fits exactly when each part of it does.
proof fn lemma_unwind_info_fits_parts(
    entries: Seq<CompactUnwindEntry>,
    personalities: Seq<u64>,
    image_base: u64,
)
    ensures
        unwind_info_fits(entries, personalities, image_base) <==> {
            &&& 28 + 4 * personalities.len() <= u32::MAX
            &&& num_pages(entries.len() as int) + 1 <= u32::MAX
            &&& forall|i: int|
                0 <= i < personalities.len() ==> in_image(#[trigger] personalities[i], image_base)
            &&& lsda_phase_fits(entries, personalities.len() as int, image_base)
            &&& lsda_end(entries, personalities.len() as int, image_base) <= u32::MAX
            &&& page_phase_fits(entries, personalities, image_base)
            &&& in_image(sentinel_function(entries), image_base)
        },
{
    reveal(unwind_info_fits);
}

/// Serializes the final `__unwind_info` of address-sorted `entries` with the given personality
/// table: a header, the personality table, a first-level index with one entry per regular page
/// and a sentinel, the LSDA descriptors of every page, and the regular pages of up to 511 rows.
/// Fails when an address or table offset does not fit its 32-bit field or a row's personality is
/// not in the table.
#[verifier::rlimit(80)]
#[verifier::rlimit(40)]
pub fn serialize_compact_unwind_info(
    entries: &[CompactUnwindEntry],
    personalities: &[u64],
    image_base: u64,
) -> (r: Result<Vec<u8>, CompactUnwindError>)
    requires
        entries@.len() > 0 ==> entries@.last().function_address
            + entries@.last().function_length <= u64::MAX,
    ensures
        r is Ok <==> unwind_info_fits(entries@, personalities@, image_base),
        r matches Ok(data) ==> data@ == spec_unwind_info(entries@, personalities@, image_base),
        r matches Err(e) ==> is_table_error(e),
{
    proof {
        lemma_unwind_info_fits_parts(entries@, personalities@, image_base);
    }
    let n = entries.len();
    let pc = personalities.len();
    let pages = n / 511 + if n % 511 == 0 {
        0
    } else {
        1
    };
    assert(pages == num_pages(n as int));
    if pc > (0xffff_ffffusize - 28) / 4 {
        return Err(CompactUnwindError::TableTooLarge);
    }
    if pages >= 0xffff_ffffusize {
        return Err(CompactUnwindError::TableTooLarge);
    }
    let index_offset = 28 + 4 * pc;
    let mut data: Vec<u8> = Vec::new();
    push_u32(&mut data, 1);
    push_u32(&mut data, 28);
    push_u32(&mut data, 0);
    push_u32(&mut data, 28);
    push_u32(&mut data, pc as u32);
    push_u32(&mut data, index_offset as u32);
    push_u32(&mut data, (pages + 1) as u32);
    let ghost header = data@;
    assert(header =~= header_bytes(n as int, pc as int));
    push_personality_offsets(&mut data, personalities, image_base)?;
    proof {
        lemma_personality_bytes_len(personalities@, image_base);
    }
    let ghost head = data@;
    assert(head.len() == 28 + 4 * pc);
    let index_start = data.len();
    push_zeros(&mut data, 12 * (pages + 1));
    let ghost z = zeros(12 * (pages + 1));
    let lsda_offsets = lsda_phase(&mut data, entries, pc, image_base)?;
    let ghost lsdas = lsda_region(entries@, pages as int, image_base);
    let lsda_end_offset = data.len();
    assert(lsda_end_offset == lsda_end(entries@, pc as int, image_base));
    if lsda_end_offset > 0xffff_ffff {
        return Err(CompactUnwindError::TableTooLarge);
    }
    let page_offsets = page_phase(&mut data, entries, personalities, image_base)?;
    let ghost pages_bytes = page_region(entries@, pages as int, personalities@, image_base);
    assert(data@ =~= head + z + (lsdas + pages_bytes));
    index_phase(
        &mut data,
        entries,
        personalities,
        image_base,
        &page_offsets,
        &lsda_offsets,
        index_start,
        Ghost(head),
        Ghost(lsdas + pages_bytes),
    );
    let sentinel_function_address: u64 = if n == 0 {
        0
    } else {
        entries[n - 1].function_address + entries[n - 1].function_length as u64
    };
    assert(sentinel_function_address == sentinel_function(entries@));
    let sentinel = compact_unwind_image_offset(sentinel_function_address, image_base, "function")?;
    let off = index_start + 12 * pages;
    let ghost before = data@;
    let ghost table = index_table(entries@, pages as int, personalities@, image_base);
    let ghost w = u32_le_bytes(sentinel) + u32_le_bytes(0) + u32_le_bytes(lsda_end_offset as u32);
    proof {
        assert(w =~= sentinel_entry(entries@, pc as int, image_base));
        lemma_index_table_len(entries@, pages as int, personalities@, image_base);
        lemma_splice_over_zeros(head + table, w, 12, lsdas + pages_bytes);
    }
    write_index_entry(&mut data, off, sentinel, 0, lsda_end_offset as u32);
    assert(data@ == spec_unwind_info(entries@, personalities@, image_base)) by {
        reveal(spec_unwind_info);
        assert(data@ =~= header + personality_bytes(personalities@, image_base) + table + w + lsdas
            + pages_bytes);
    }
    Ok(data)
}

/// The rows of a page take eight bytes each.
proof fn lemma_page_rows_len(page: Seq<CompactUnwindEntry>, personalities: Seq<u64>, image_base: u64)
    ensures
        page_rows(page, personalities, image_base).len() == 8 * page.len(),
        lsda_rows(page, image_base).len() <= 8 * page.len(),
    decreases page.len(),
{
    if page.len() > 0 {
        lemma_page_rows_len(page.drop_last(), personalities, image_base);
    }
}

/// The first `p` pages hold the first `min(511 p, n)` rows: their LSDA descriptors take at most
/// eight bytes per row, and the pages an eight-byte header each and eight bytes per row.
proof fn lemma_regions_len(entries: Seq<CompactUnwindEntry>, p: int, personalities: Seq<u64>, image_base: u64)
    requires
        0 <= p <= num_pages(entries.len() as int),
    ensures
        ({
            let rows = if p * 511 < entries.len() { p * 511 } else { entries.len() as int };
            &&& lsda_region(entries, p, image_base).len() <= 8 * rows
            &&& page_region(entries, p, personalities, image_base).len() == 8 * p + 8 * rows
        }),
    decreases p,
{
    if p > 0 {
        lemma_regions_len(entries, p - 1, personalities, image_base);
        let page = page_of(entries, p - 1);
        lemma_page_rows_len(page, personalities, image_base);
        let n = entries.len() as int;
        assert((p - 1) * 511 < n) by {
            assert(num_pages(n) * 511 <= n + 510) by (nonlinear_arith)
                requires
                    num_pages(n) == (n + 510) / 511,
                    n >= 0,
            ;
        }
    }
}

/// The table serialized from at most `n` rows and at most three personalities fits the space
/// reserved for `n` rows.
pub proof fn lemma_unwind_info_fits_capacity(
    entries: Seq<CompactUnwindEntry>,
    personalities: Seq<u64>,
    image_base: u64,
    n: int,
)
    requires
        1 <= n,
        entries.len() <= n,
        personalities.len() <= 3,
    ensures
        spec_unwind_info(entries, personalities, image_base).len() <= spec_compact_unwind_info_capacity(n),
{
    reveal(spec_unwind_info);
    let m = entries.len() as int;
    let pages = num_pages(m);
    assert(0 <= pages);
    lemma_personality_bytes_len(personalities, image_base);
    lemma_index_table_len(entries, pages, personalities, image_base);
    lemma_regions_len(entries, pages, personalities, image_base);
    assert(pages <= num_pages(n)) by (nonlinear_arith)
        requires
            pages == (m + 510) / 511,
            num_pages(n) == (n + 510) / 511,
            0 <= m <= n,
    ;
}

/// The fields of `unwind_info_section_header` stand where the unwinder reads them: `version`
/// at 0, the common-encodings array's offset and count at 4 and 8, the personality array's
/// offset and count at 12 and 16, and the index's offset and count at 20 and 24.
pub proof fn lemma_unwind_header_layout(n: int, personality_count: int)
    ensures
        ({
            let b = header_bytes(n, personality_count);
            &&& b.len() == 28
            &&& le_u32(b, 0) == 1
            &&& le_u32(b, 4) == 28
            &&& le_u32(b, 8) == 0
            &&& le_u32(b, 12) == 28
            &&& le_u32(b, 16) == personality_count as u32
            &&& le_u32(b, 20) == (28 + 4 * personality_count) as u32
            &&& le_u32(b, 24) == (num_pages(n) + 1) as u32
        }),
{
    let b = header_bytes(n, personality_count);
    let fields = seq![
        1u32,
        28u32,
        0u32,
        28u32,
        personality_count as u32,
        (28 + 4 * personality_count) as u32,
        (num_pages(n) + 1) as u32,
    ];
    assert forall|k: int| 0 <= k < 7 implies le_u32(b, 4 * k) == #[trigger] fields[k] by {
        assert(b.subrange(4 * k, 4 * k + 4) =~= u32_le_bytes(fields[k]));
        lemma_le_u32_at(b, 4 * k, fields[k]);
    }
    assert(fields[0] == 1 && fields[1] == 28 && fields[2] == 0 && fields[3] == 28);
}

/// A row's final encoding keeps the row's own bits outside the personality field (bits 28..30)
/// and the LSDA bit (bit 30); the LSDA bit is set exactly when the row has an LSDA, and the
/// personality field holds one plus the personality's position in the table (zero without one).
pub proof fn lemma_final_encoding_fields(e: CompactUnwindEntry, personalities: Seq<u64>)
    requires
        e.personality_address is Some ==> 0 <= personality_index(personalities, e.personality_address->0) < 3,
    ensures
        ({
            let f = final_encoding(e, personalities);
            &&& f & 0xbfff_ffff & !0x3000_0000u32 == e.encoding & 0xbfff_ffff & !0x3000_0000u32
            &&& (f >> 30u32) & 1 == if e.lsda_address is Some { 1u32 } else { 0u32 }
            &&& (f >> 28u32) & 3 == if e.personality_address is Some {
                (personality_index(personalities, e.personality_address->0) + 1) as u32
            } else {
                0u32
            }
        }),
{
    let enc = e.encoding;
    let hl = e.lsda_address is Some;
    let hp = e.personality_address is Some;
    let p: u32 = if hp {
        (personality_index(personalities, e.personality_address->0) + 1) as u32
    } else {
        0
    };
    let c = enc & !(COMPACT_UNWIND_PERSONALITY_MASK | COMPACT_UNWIND_HAS_LSDA);
    let wl = if hl { c | COMPACT_UNWIND_HAS_LSDA } else { c };
    let f = final_encoding(e, personalities);
    assert(f == if hp { wl | (p << 28u32) } else { wl });
    assert(f & 0xbfff_ffff & !0x3000_0000u32 == enc & 0xbfff_ffff & !0x3000_0000u32 && (f >> 30u32)
        & 1 == (if hl { 1u32 } else { 0u32 }) && (f >> 28u32) & 3 == p) by (bit_vector)
        requires
            c == enc & !(0x3000_0000u32 | 0x4000_0000u32),
            wl == (if hl { c | 0x4000_0000u32 } else { c }),
            f == (if hp { wl | (p << 28u32) } else { wl }),
            p <= 3,
            !hp ==> p == 0,
    ;
}

} // verus!
