//! The `LC_DYLD_CHAINED_FIXUPS` payload: a header, the chain starts of every segment, and the
//! imports with their names.
use vstd::prelude::*;
use crate::bytes::{
    le_u32, lemma_le_u32_at, push_u16, push_u32, push_u64, u16_le_bytes, u32_le_bytes, u64_le_bytes,
};
use crate::chained_fixups::SegmentChainedFixups;

verus! {

/// The size of `dyld_chained_fixups_header`.
pub const CHAINED_FIXUPS_HEADER_SIZE: usize = 28;
/// Where `dyld_chained_starts_in_image` begins: the header rounded up to eight bytes.
pub const CHAINED_STARTS_IN_IMAGE_OFFSET: usize = 32;
/// The fixed part of `dyld_chained_starts_in_segment`, before its page starts.
pub const CHAINED_STARTS_IN_SEGMENT_FIXED_SIZE: usize = 22;
/// The most load-command segments an image has.
pub const MAX_SEGMENT_COUNT: usize = 6;
/// The import format: one 32-bit record per import.
pub const DYLD_CHAINED_IMPORT: u32 = 1;
/// The pointer format: 64-bit pointers with image-relative rebase targets.
pub const DYLD_CHAINED_PTR_64_OFFSET: u16 = 6;
/// The page size recorded for each segment's chains.
pub const CHAINED_PAGE_SIZE: u16 = 0x4000;

/// A dynamically imported symbol: its name, the ordinal of the dylib that provides it, and
/// whether a missing definition is allowed.
#[derive(Debug)]
pub struct ChainedImport {
    pub name: Vec<u8>,
    pub library_ordinal: u8,
    pub weak_import: bool,
}

/// Why the table could not be written.
#[derive(Debug, Clone, Copy, PartialEq, Eq)]
pub enum FixupTableError {
    /// More load-command segments than the table reserves room for.
    TooManySegments,
    /// A segment's starts record lies 4 GiB or more past the starts table.
    OffsetTooLarge,
    /// A segment with fixups begins below the image base.
    SegmentBeforeImageBase,
    /// A segment has more pages than its record can count.
    TooManyPages,
    /// The allocation is smaller than the table.
    TableTooSmall,
}

/// The size of one segment's starts record.
pub open spec fn record_len(plan: SegmentChainedFixups) -> int {
    CHAINED_STARTS_IN_SEGMENT_FIXED_SIZE + 2 * plan.page_starts@.len()
}

/// The size of the first `p` starts records.
pub open spec fn records_len(plans: Seq<SegmentChainedFixups>, p: int) -> int
    decreases p,
{
    if p <= 0 {
        0
    } else {
        records_len(plans, p - 1) + record_len(plans[p - 1])
    }
}

/// The size of the segment count and per-segment offsets.
pub open spec fn starts_in_image_len(segment_count: int) -> int {
    4 * (segment_count + 1)
}

/// `x` rounded up to a multiple of four.
pub open spec fn round_up4(x: int) -> int {
    if x % 4 == 0 {
        x
    } else {
        x + 4 - x % 4
    }
}

/// Where the imports begin: after the starts, aligned for 32-bit records.
pub open spec fn imports_offset(segment_count: int, plans: Seq<SegmentChainedFixups>) -> int {
    round_up4(
        CHAINED_STARTS_IN_IMAGE_OFFSET + starts_in_image_len(segment_count) + records_len(
            plans,
            plans.len() as int,
        ),
    )
}

/// The size of the first `k` NUL-terminated names.
pub open spec fn names_len(imports: Seq<ChainedImport>, k: int) -> int
    decreases k,
{
    if k <= 0 {
        0
    } else {
        names_len(imports, k - 1) + imports[k - 1].name@.len() + 1
    }
}

/// Where the names begin: after one record per import.
pub open spec fn symbols_offset(
    segment_count: int,
    plans: Seq<SegmentChainedFixups>,
    imports: Seq<ChainedImport>,
) -> int {
    imports_offset(segment_count, plans) + 4 * imports.len()
}

/// The size of the whole table.
pub open spec fn table_len(
    segment_count: int,
    plans: Seq<SegmentChainedFixups>,
    imports: Seq<ChainedImport>,
) -> int {
    symbols_offset(segment_count, plans, imports) + names_len(imports, imports.len() as int)
}

/// The header: version zero, the three offsets, the import count and formats.
pub open spec fn header_bytes(
    segment_count: int,
    plans: Seq<SegmentChainedFixups>,
    imports: Seq<ChainedImport>,
) -> Seq<u8> {
    u32_le_bytes(0) + u32_le_bytes(CHAINED_STARTS_IN_IMAGE_OFFSET as u32) + u32_le_bytes(
        imports_offset(segment_count, plans) as u32,
    ) + u32_le_bytes(symbols_offset(segment_count, plans, imports) as u32) + u32_le_bytes(
        imports.len() as u32,
    ) + u32_le_bytes(DYLD_CHAINED_IMPORT) + u32_le_bytes(0)
}

/// The slot of a segment in `dyld_chained_starts_in_image`: slot zero holds the count, and a
/// leading `__PAGEZERO` shifts every segment by one.
pub open spec fn image_slot(plan: SegmentChainedFixups, has_pagezero: bool) -> int {
    plan.segment_index + 1 + if has_pagezero {
        1int
    } else {
        0int
    }
}

/// The offset of starts record `p`, counted from the start of `dyld_chained_starts_in_image`.
pub open spec fn record_offset(segment_count: int, plans: Seq<SegmentChainedFixups>, p: int) -> int {
    starts_in_image_len(segment_count) + records_len(plans, p)
}

/// `dyld_chained_starts_in_image` after the first `p` records: the segment count, then the
/// record offset of each segment with fixups and zero for the others.
pub open spec fn image_starts(
    segment_count: int,
    plans: Seq<SegmentChainedFixups>,
    has_pagezero: bool,
    p: int,
) -> Seq<u32>
    decreases p,
{
    if p <= 0 {
        Seq::new((segment_count + 1) as nat, |i: int| if i == 0 { segment_count as u32 } else { 0u32 })
    } else {
        image_starts(segment_count, plans, has_pagezero, p - 1).update(
            image_slot(plans[p - 1], has_pagezero),
            record_offset(segment_count, plans, p - 1) as u32,
        )
    }
}

/// Little-endian `u32`s.
pub open spec fn u32s_bytes(s: Seq<u32>) -> Seq<u8>
    decreases s.len(),
{
    if s.len() == 0 {
        Seq::empty()
    } else {
        u32s_bytes(s.drop_last()) + u32_le_bytes(s.last())
    }
}

/// Little-endian `u16`s.
pub open spec fn u16s_bytes(s: Seq<u16>) -> Seq<u8>
    decreases s.len(),
{
    if s.len() == 0 {
        Seq::empty()
    } else {
        u16s_bytes(s.drop_last()) + u16_le_bytes(s.last())
    }
}

/// One segment's `dyld_chained_starts_in_segment`: its size, page size, pointer format,
/// image-relative start, no pointer limit, the page count and the page starts.
pub open spec fn record_bytes(plan: SegmentChainedFixups, image_base: u64) -> Seq<u8> {
    u32_le_bytes(record_len(plan) as u32) + u16_le_bytes(CHAINED_PAGE_SIZE) + u16_le_bytes(
        DYLD_CHAINED_PTR_64_OFFSET,
    ) + u64_le_bytes((plan.segment_start - image_base) as u64) + u32_le_bytes(0) + u16_le_bytes(
        plan.page_starts@.len() as u16,
    ) + u16s_bytes(plan.page_starts@)
}

/// The first `p` starts records.
pub open spec fn records_bytes(plans: Seq<SegmentChainedFixups>, image_base: u64, p: int) -> Seq<u8>
    decreases p,
{
    if p <= 0 {
        Seq::empty()
    } else {
        records_bytes(plans, image_base, p - 1) + record_bytes(plans[p - 1], image_base)
    }
}

/// A `dyld_chained_import`: the library ordinal in bits 0..8, the weak bit, and the name's
/// offset in the string pool from bit 9 up (higher bits are dropped).
pub open spec fn import_word(import: ChainedImport, name_offset: int) -> u32 {
    (import.library_ordinal as u32) | (if import.weak_import {
        0x100u32
    } else {
        0u32
    }) | ((name_offset as u32) << 9u32)
}

/// The records of the first `k` imports.
pub open spec fn imports_bytes(imports: Seq<ChainedImport>, k: int) -> Seq<u8>
    decreases k,
{
    if k <= 0 {
        Seq::empty()
    } else {
        imports_bytes(imports, k - 1) + u32_le_bytes(
            import_word(imports[k - 1], names_len(imports, k - 1)),
        )
    }
}

/// The NUL-terminated names of the first `k` imports.
pub open spec fn names_bytes(imports: Seq<ChainedImport>, k: int) -> Seq<u8>
    decreases k,
{
    if k <= 0 {
        Seq::empty()
    } else {
        names_bytes(imports, k - 1) + imports[k - 1].name@ + seq![0u8]
    }
}

/// `k` zero bytes.
pub open spec fn zero_bytes(k: int) -> Seq<u8> {
    Seq::new(k as nat, |i: int| 0u8)
}

/// The whole chained-fixups payload, before the allocation's zero tail.
pub open spec fn spec_fixup_table(
    segment_count: int,
    has_pagezero: bool,
    plans: Seq<SegmentChainedFixups>,
    imports: Seq<ChainedImport>,
    image_base: u64,
) -> Seq<u8> {
    let starts_end = CHAINED_STARTS_IN_IMAGE_OFFSET + starts_in_image_len(segment_count) + records_len(
        plans,
        plans.len() as int,
    );
    header_bytes(segment_count, plans, imports) + zero_bytes(
        CHAINED_STARTS_IN_IMAGE_OFFSET - CHAINED_FIXUPS_HEADER_SIZE,
    ) + u32s_bytes(image_starts(segment_count, plans, has_pagezero, plans.len() as int))
        + records_bytes(plans, image_base, plans.len() as int) + zero_bytes(
        imports_offset(segment_count, plans) - starts_end,
    ) + imports_bytes(imports, imports.len() as int) + names_bytes(imports, imports.len() as int)
}

/// Whether the table can be written into an allocation of `capacity` bytes.
pub open spec fn fixup_table_fits(
    segment_count: int,
    plans: Seq<SegmentChainedFixups>,
    imports: Seq<ChainedImport>,
    image_base: u64,
    capacity: int,
) -> bool {
    &&& segment_count <= MAX_SEGMENT_COUNT
    &&& forall|p: int|
        0 <= p < plans.len() ==> record_offset(segment_count, plans, p) <= u32::MAX
    &&& forall|p: int| 0 <= p < plans.len() ==> (#[trigger] plans[p]).segment_start >= image_base
    &&& forall|p: int| 0 <= p < plans.len() ==> (#[trigger] plans[p]).page_starts@.len() <= u16::MAX
    &&& table_len(segment_count, plans, imports) <= capacity
}

/// Appends little-endian `u32`s.
fn push_u32s(data: &mut Vec<u8>, values: &Vec<u32>)
    ensures
        final(data)@ == old(data)@ + u32s_bytes(values@),
{
    let mut i: usize = 0;
    while i < values.len()
        invariant
            0 <= i <= values@.len(),
            data@ == old(data)@ + u32s_bytes(values@.take(i as int)),
        decreases values@.len() - i,
    {
        assert(values@.take(i + 1).drop_last() =~= values@.take(i as int));
        push_u32(data, values[i]);
        i = i + 1;
    }
    assert(values@.take(values@.len() as int) =~= values@);
}

/// Appends little-endian `u16`s.
fn push_u16s(data: &mut Vec<u8>, values: &Vec<u16>)
    ensures
        final(data)@ == old(data)@ + u16s_bytes(values@),
{
    let mut i: usize = 0;
    while i < values.len()
        invariant
            0 <= i <= values@.len(),
            data@ == old(data)@ + u16s_bytes(values@.take(i as int)),
        decreases values@.len() - i,
    {
        assert(values@.take(i + 1).drop_last() =~= values@.take(i as int));
        push_u16(data, values[i]);
        i = i + 1;
    }
    assert(values@.take(values@.len() as int) =~= values@);
}

/// Appends `k` zero bytes.
fn push_zero_bytes(data: &mut Vec<u8>, k: usize)
    ensures
        final(data)@ == old(data)@ + zero_bytes(k as int),
{
    let mut i: usize = 0;
    while i < k
        invariant
            0 <= i <= k,
            data@ == old(data)@ + zero_bytes(i as int),
        decreases k - i,
    {
        data.push(0u8);
        i = i + 1;
        assert(data@ =~= old(data)@ + zero_bytes(i as int));
    }
}

/// The sizes of the records and names only grow.
proof fn lemma_lens_monotone(
    plans: Seq<SegmentChainedFixups>,
    imports: Seq<ChainedImport>,
    p: int,
    q: int,
)
    requires
        0 <= p <= q,
    ensures
        records_len(plans, p) <= records_len(plans, q),
        names_len(imports, p) <= names_len(imports, q),
        records_len(plans, p) >= 0,
        names_len(imports, p) >= 0,
    decreases q,
{
    if p < q {
        lemma_lens_monotone(plans, imports, p, q - 1);
    } else if p > 0 {
        lemma_lens_monotone(plans, imports, p - 1, p - 1);
    }
}

/// Checks every segment's starts record and returns the end of the starts, counted from the
/// start of `dyld_chained_starts_in_image`.
fn check_records(segment_count: usize, plans: &[SegmentChainedFixups], image_base: u64) -> (r:
    Result<u64, FixupTableError>)
    requires
        segment_count <= MAX_SEGMENT_COUNT,
    ensures
        r is Ok <==> {
            &&& forall|p: int|
                0 <= p < plans@.len() ==> record_offset(segment_count as int, plans@, p)
                    <= u32::MAX
            &&& forall|p: int|
                0 <= p < plans@.len() ==> (#[trigger] plans@[p]).segment_start >= image_base
            &&& forall|p: int|
                0 <= p < plans@.len() ==> (#[trigger] plans@[p]).page_starts@.len() <= u16::MAX
        },
        r matches Ok(end) ==> end == record_offset(
            segment_count as int,
            plans@,
            plans@.len() as int,
        ) && end <= u32::MAX + 0x3_0000,
        r matches Err(e) ==> e is OffsetTooLarge || e is SegmentBeforeImageBase || e is TooManyPages,
{
    let mut running: u64 = 4 * (segment_count as u64 + 1);
    let mut p: usize = 0;
    while p < plans.len()
        invariant
            segment_count <= MAX_SEGMENT_COUNT,
            0 <= p <= plans@.len(),
            running == record_offset(segment_count as int, plans@, p as int),
            running <= u32::MAX + 0x3_0000,
            forall|q: int|
                0 <= q < p ==> record_offset(segment_count as int, plans@, q) <= u32::MAX,
            forall|q: int| 0 <= q < p ==> (#[trigger] plans@[q]).segment_start >= image_base,
            forall|q: int| 0 <= q < p ==> (#[trigger] plans@[q]).page_starts@.len() <= u16::MAX,
        decreases plans@.len() - p,
    {
        if running > 0xffff_ffff {
            return Err(FixupTableError::OffsetTooLarge);
        }
        let plan = &plans[p];
        if plan.segment_start < image_base {
            return Err(FixupTableError::SegmentBeforeImageBase);
        }
        if plan.page_starts.len() > 0xffff {
            return Err(FixupTableError::TooManyPages);
        }
        running = running + 22 + 2 * plan.page_starts.len() as u64;
        p = p + 1;
    }
    Ok(running)
}

/// The size of all NUL-terminated names, if it is at most `limit`.
fn names_total(imports: &[ChainedImport], limit: u64) -> (r: Option<u64>)
    ensures
        r matches Some(t) ==> t == names_len(imports@, imports@.len() as int) && t <= limit,
        r is None ==> names_len(imports@, imports@.len() as int) > limit,
{
    let mut total: u64 = 0;
    let mut k: usize = 0;
    while k < imports.len()
        invariant
            0 <= k <= imports@.len(),
            total == names_len(imports@, k as int),
            total <= limit,
        decreases imports@.len() - k,
    {
        let len = imports[k].name.len() as u64;
        if len >= limit - total {
            proof {
                lemma_lens_monotone(Seq::empty(), imports@, k + 1, imports@.len() as int);
            }
            return None;
        }
        total = total + len + 1;
        k = k + 1;
    }
    Some(total)
}

/// The starts-in-image table has one entry per segment plus the count.
proof fn lemma_image_starts_len(
    segment_count: int,
    has_pagezero: bool,
    plans: Seq<SegmentChainedFixups>,
    p: int,
)
    requires
        0 <= segment_count,
        p <= plans.len(),
        forall|q: int|
            0 <= q < plans.len() ==> image_slot(#[trigger] plans[q], has_pagezero) <= segment_count,
    ensures
        image_starts(segment_count, plans, has_pagezero, p).len() == segment_count + 1,
    decreases p,
{
    if p > 0 {
        lemma_image_starts_len(segment_count, has_pagezero, plans, p - 1);
    }
}

/// The starts records take `records_len` bytes.
proof fn lemma_records_bytes_len(plans: Seq<SegmentChainedFixups>, image_base: u64, p: int)
    ensures
        records_bytes(plans, image_base, p).len() == records_len(plans, p),
    decreases p,
{
    if p > 0 {
        lemma_records_bytes_len(plans, image_base, p - 1);
        lemma_u16s_len(plans[p - 1].page_starts@);
    }
}

/// Each import record takes four bytes and the names take `names_len` bytes.
proof fn lemma_imports_bytes_len(imports: Seq<ChainedImport>, k: int)
    ensures
        k >= 0 ==> imports_bytes(imports, k).len() == 4 * k,
        names_bytes(imports, k).len() == names_len(imports, k),
    decreases k,
{
    if k > 0 {
        lemma_imports_bytes_len(imports, k - 1);
    }
}

/// Little-endian `u32`s take four bytes each.
proof fn lemma_u32s_len(s: Seq<u32>)
    ensures
        u32s_bytes(s).len() == 4 * s.len(),
    decreases s.len(),
{
    if s.len() > 0 {
        lemma_u32s_len(s.drop_last());
    }
}

/// Little-endian `u16`s take two bytes each.
proof fn lemma_u16s_len(s: Seq<u16>)
    ensures
        u16s_bytes(s).len() == 2 * s.len(),
    decreases s.len(),
{
    if s.len() > 0 {
        lemma_u16s_len(s.drop_last());
    }
}

/// The payload is `table_len` bytes long.
proof fn lemma_fixup_table_len(
    segment_count: int,
    has_pagezero: bool,
    plans: Seq<SegmentChainedFixups>,
    imports: Seq<ChainedImport>,
    image_base: u64,
)
    requires
        0 <= segment_count,
        forall|q: int|
            0 <= q < plans.len() ==> image_slot(#[trigger] plans[q], has_pagezero) <= segment_count,
    ensures
        spec_fixup_table(segment_count, has_pagezero, plans, imports, image_base).len()
            == table_len(segment_count, plans, imports),
{
    lemma_image_starts_len(segment_count, has_pagezero, plans, plans.len() as int);
    lemma_records_bytes_len(plans, image_base, plans.len() as int);
    lemma_imports_bytes_len(imports, imports.len() as int);
    lemma_u32s_len(image_starts(segment_count, plans, has_pagezero, plans.len() as int));
    lemma_lens_monotone(plans, imports, 0, plans.len() as int);
}

/// Appends `dyld_chained_starts_in_image`.
fn push_image_starts(
    bytes: &mut Vec<u8>,
    segment_count: usize,
    has_pagezero: bool,
    plans: &[SegmentChainedFixups],
)
    requires
        segment_count <= MAX_SEGMENT_COUNT,
        forall|q: int|
            0 <= q < plans@.len() ==> image_slot(#[trigger] plans@[q], has_pagezero)
                <= segment_count,
        forall|q: int|
            0 <= q < plans@.len() ==> record_offset(segment_count as int, plans@, q) <= u32::MAX,
        forall|q: int| 0 <= q < plans@.len() ==> (#[trigger] plans@[q]).page_starts@.len() <= u16::MAX,
    ensures
        final(bytes)@ == old(bytes)@ + u32s_bytes(
            image_starts(segment_count as int, plans@, has_pagezero, plans@.len() as int),
        ),
{
    let mut starts: Vec<u32> = Vec::new();
    starts.push(segment_count as u32);
    while starts.len() < segment_count + 1
        invariant
            1 <= starts@.len() <= segment_count + 1,
            segment_count <= MAX_SEGMENT_COUNT,
            starts@[0] == segment_count as u32,
            forall|i: int| 1 <= i < starts@.len() ==> #[trigger] starts@[i] == 0u32,
        decreases segment_count + 1 - starts@.len(),
    {
        starts.push(0u32);
    }
    assert(starts@ =~= image_starts(segment_count as int, plans@, has_pagezero, 0));
    let mut running: u64 = 4 * (segment_count as u64 + 1);
    let mut p: usize = 0;
    while p < plans.len()
        invariant
            segment_count <= MAX_SEGMENT_COUNT,
            forall|q: int|
                0 <= q < plans@.len() ==> image_slot(#[trigger] plans@[q], has_pagezero)
                    <= segment_count,
            forall|q: int|
                0 <= q < plans@.len() ==> record_offset(segment_count as int, plans@, q)
                    <= u32::MAX,
            forall|q: int| 0 <= q < plans@.len() ==> (#[trigger] plans@[q]).page_starts@.len() <= u16::MAX,
            0 <= p <= plans@.len(),
            running == record_offset(segment_count as int, plans@, p as int),
            starts@ == image_starts(segment_count as int, plans@, has_pagezero, p as int),
            starts@.len() == segment_count + 1,
        decreases plans@.len() - p,
    {
        proof {
            lemma_image_starts_len(segment_count as int, has_pagezero, plans@, p as int);
        }
        let slot = plans[p].segment_index + 1 + if has_pagezero {
            1
        } else {
            0
        };
        starts.set(slot, running as u32);
        running = running + 22 + 2 * plans[p].page_starts.len() as u64;
        p = p + 1;
    }
    push_u32s(bytes, &starts);
}

/// Appends the starts record of every segment.
fn push_records(bytes: &mut Vec<u8>, plans: &[SegmentChainedFixups], image_base: u64)
    requires
        forall|q: int| 0 <= q < plans@.len() ==> (#[trigger] plans@[q]).segment_start >= image_base,
        forall|q: int| 0 <= q < plans@.len() ==> (#[trigger] plans@[q]).page_starts@.len() <= u16::MAX,
    ensures
        final(bytes)@ == old(bytes)@ + records_bytes(plans@, image_base, plans@.len() as int),
{
    let mut p: usize = 0;
    while p < plans.len()
        invariant
            forall|q: int| 0 <= q < plans@.len() ==> (#[trigger] plans@[q]).segment_start >= image_base,
            forall|q: int| 0 <= q < plans@.len() ==> (#[trigger] plans@[q]).page_starts@.len() <= u16::MAX,
            0 <= p <= plans@.len(),
            bytes@ == old(bytes)@ + records_bytes(plans@, image_base, p as int),
        decreases plans@.len() - p,
    {
        let plan = &plans[p];
        let ghost before = bytes@;
        push_u32(bytes, (22 + 2 * plan.page_starts.len()) as u32);
        push_u16(bytes, CHAINED_PAGE_SIZE);
        push_u16(bytes, DYLD_CHAINED_PTR_64_OFFSET);
        push_u64(bytes, plan.segment_start - image_base);
        push_u32(bytes, 0);
        push_u16(bytes, plan.page_starts.len() as u16);
        push_u16s(bytes, &plan.page_starts);
        assert(bytes@ =~= before + record_bytes(plans@[p as int], image_base));
        p = p + 1;
    }
}

/// Appends the import records and then the NUL-terminated names.
fn push_imports(bytes: &mut Vec<u8>, imports: &[ChainedImport])
    requires
        names_len(imports@, imports@.len() as int) <= u64::MAX,
    ensures
        final(bytes)@ == old(bytes)@ + imports_bytes(imports@, imports@.len() as int) + names_bytes(
            imports@,
            imports@.len() as int,
        ),
{
    let mut name_offset: u64 = 0;
    let mut k: usize = 0;
    while k < imports.len()
        invariant
            0 <= k <= imports@.len(),
            name_offset == names_len(imports@, k as int),
            names_len(imports@, imports@.len() as int) <= u64::MAX,
            bytes@ == old(bytes)@ + imports_bytes(imports@, k as int),
        decreases imports@.len() - k,
    {
        proof {
            lemma_lens_monotone(Seq::empty(), imports@, k + 1, imports@.len() as int);
        }
        let import = &imports[k];
        let weak: u32 = if import.weak_import {
            0x100
        } else {
            0
        };
        let word = (import.library_ordinal as u32) | weak | ((name_offset as u32) << 9u32);
        push_u32(bytes, word);
        name_offset = name_offset + import.name.len() as u64 + 1;
        k = k + 1;
    }
    let ghost middle = bytes@;
    let mut k: usize = 0;
    while k < imports.len()
        invariant
            0 <= k <= imports@.len(),
            bytes@ == middle + names_bytes(imports@, k as int),
        decreases imports@.len() - k,
    {
        let ghost before = bytes@;
        let name = &imports[k].name;
        let mut j: usize = 0;
        while j < name.len()
            invariant
                0 <= j <= name@.len(),
                bytes@ == before + name@.take(j as int),
            decreases name@.len() - j,
        {
            bytes.push(name[j]);
            j = j + 1;
            assert(bytes@ =~= before + name@.take(j as int));
        }
        bytes.push(0u8);
        assert(name@.take(name@.len() as int) =~= name@);
        assert(bytes@ =~= before + name@ + seq![0u8]);
        k = k + 1;
    }
}

/// Writes the `LC_DYLD_CHAINED_FIXUPS` payload into its allocation: the header, the chain-starts
/// table with one record per segment that has fixups, the imports in bind order and their
/// NUL-terminated names; the rest of the allocation is zeroed.
pub fn write_chained_fixup_table(
    active_segment_count: usize,
    has_pagezero: bool,
    plans: &[SegmentChainedFixups],
    imports: &[ChainedImport],
    image_base: u64,
    table: &mut [u8],
) -> (r: Result<(), FixupTableError>)
    requires
        active_segment_count < usize::MAX,
        forall|p: int|
            0 <= p < plans@.len() ==> image_slot(#[trigger] plans@[p], has_pagezero)
                <= active_segment_count + if has_pagezero {
                1int
            } else {
                0int
            },
    ensures
        final(table)@.len() == old(table)@.len(),
        ({
            let segment_count = active_segment_count + if has_pagezero {
                1int
            } else {
                0int
            };
            &&& r is Ok <==> fixup_table_fits(
                segment_count,
                plans@,
                imports@,
                image_base,
                old(table)@.len() as int,
            )
            &&& r is Ok ==> final(table)@ == spec_fixup_table(
                segment_count,
                has_pagezero,
                plans@,
                imports@,
                image_base,
            ) + zero_bytes(old(table)@.len() - table_len(segment_count, plans@, imports@))
        }),
{
    let segment_count = active_segment_count + if has_pagezero {
        1
    } else {
        0
    };
    if segment_count > MAX_SEGMENT_COUNT {
        return Err(FixupTableError::TooManySegments);
    }
    let starts_end = match check_records(segment_count, plans, image_base) {
        Ok(end) => end,
        Err(e) => {
            return Err(e);
        },
    };
    let capacity = table.len() as u64;
    let unaligned = 32 + starts_end;
    let imports_at = if unaligned % 4 == 0 {
        unaligned
    } else {
        unaligned + 4 - unaligned % 4
    };
    proof {
        lemma_lens_monotone(plans@, imports@, 0, imports@.len() as int);
        lemma_fixup_table_len(segment_count as int, has_pagezero, plans@, imports@, image_base);
    }
    assert(imports_at == imports_offset(segment_count as int, plans@));
    if imports_at > capacity || (imports.len() as u64) > (capacity - imports_at) / 4 {
        return Err(FixupTableError::TableTooSmall);
    }
    let symbols_at = imports_at + 4 * imports.len() as u64;
    let names = match names_total(imports, capacity - symbols_at) {
        Some(names) => names,
        None => {
            return Err(FixupTableError::TableTooSmall);
        },
    };
    let ghost total = table_len(segment_count as int, plans@, imports@);
    assert(symbols_at + names == total);
    let mut bytes: Vec<u8> = Vec::new();
    push_u32(&mut bytes, 0);
    push_u32(&mut bytes, CHAINED_STARTS_IN_IMAGE_OFFSET as u32);
    push_u32(&mut bytes, imports_at as u32);
    push_u32(&mut bytes, symbols_at as u32);
    push_u32(&mut bytes, imports.len() as u32);
    push_u32(&mut bytes, DYLD_CHAINED_IMPORT);
    push_u32(&mut bytes, 0);
    let ghost header = bytes@;
    assert(header =~= header_bytes(segment_count as int, plans@, imports@));
    push_zero_bytes(&mut bytes, CHAINED_STARTS_IN_IMAGE_OFFSET - CHAINED_FIXUPS_HEADER_SIZE);
    push_image_starts(&mut bytes, segment_count, has_pagezero, plans);
    push_records(&mut bytes, plans, image_base);
    push_zero_bytes(&mut bytes, (imports_at - unaligned) as usize);
    push_imports(&mut bytes, imports);
    assert(bytes@ =~= spec_fixup_table(
        segment_count as int,
        has_pagezero,
        plans@,
        imports@,
        image_base,
    ));
    // Copy the payload and zero the rest of the allocation.
    let ghost original = table@;
    let mut i: usize = 0;
    while i < table.len()
        invariant
            bytes@.len() <= table@.len(),
            table@.len() == original.len(),
            0 <= i <= table@.len(),
            forall|j: int|
                0 <= j < i ==> #[trigger] table@[j] == if j < bytes@.len() {
                    bytes@[j]
                } else {
                    0u8
                },
        decreases table@.len() - i,
    {
        if i < bytes.len() {
            table[i] = bytes[i];
        } else {
            table[i] = 0;
        }
        i = i + 1;
    }
    assert(table@ =~= bytes@ + zero_bytes(table@.len() - bytes@.len()));
    Ok(())
}

/// The fields of `dyld_chained_fixups_header` stand where dyld reads them: `fixups_version` at
/// 0, `starts_offset` at 4, `imports_offset` at 8, `symbols_offset` at 12, `imports_count` at
/// 16, `imports_format` at 20 and `symbols_format` at 24.
pub proof fn lemma_fixups_header_layout(
    segment_count: int,
    plans: Seq<SegmentChainedFixups>,
    imports: Seq<ChainedImport>,
)
    ensures
        ({
            let b = header_bytes(segment_count, plans, imports);
            &&& b.len() == 28
            &&& le_u32(b, 0) == 0
            &&& le_u32(b, 4) == 32
            &&& le_u32(b, 8) == imports_offset(segment_count, plans) as u32
            &&& le_u32(b, 12) == symbols_offset(segment_count, plans, imports) as u32
            &&& le_u32(b, 16) == imports.len() as u32
            &&& le_u32(b, 20) == 1
            &&& le_u32(b, 24) == 0
        }),
{
    let b = header_bytes(segment_count, plans, imports);
    let fields = seq![
        0u32,
        CHAINED_STARTS_IN_IMAGE_OFFSET as u32,
        imports_offset(segment_count, plans) as u32,
        symbols_offset(segment_count, plans, imports) as u32,
        imports.len() as u32,
        DYLD_CHAINED_IMPORT,
        0u32,
    ];
    assert forall|k: int| 0 <= k < 7 implies le_u32(b, 4 * k) == #[trigger] fields[k] by {
        assert(b.subrange(4 * k, 4 * k + 4) =~= u32_le_bytes(fields[k]));
        lemma_le_u32_at(b, 4 * k, fields[k]);
    }
    assert(fields[0] == 0 && fields[1] == 32 && fields[5] == 1 && fields[6] == 0);
}

/// A `dyld_chained_import` holds the library ordinal in bits 0..8, the weak-import flag in bit
/// 8 and the low 23 bits of the name's offset in bits 9..32.
pub proof fn lemma_import_word_fields(import: ChainedImport, name_offset: u32)
    ensures
        import_word(import, name_offset as int) & 0xff == import.library_ordinal as u32,
        (import_word(import, name_offset as int) >> 8u32) & 1 == if import.weak_import {
            1u32
        } else {
            0u32
        },
        import_word(import, name_offset as int) >> 9u32 == name_offset & 0x7f_ffff,
{
    let o = import.library_ordinal as u32;
    let wbit: u32 = if import.weak_import { 0x100u32 } else { 0u32 };
    let w = import_word(import, name_offset as int);
    assert(w == o | wbit | (name_offset << 9u32));
    assert(w & 0xff == o && (w >> 8u32) & 1 == wbit >> 8u32 && w >> 9u32 == name_offset & 0x7f_ffff)
        by (bit_vector)
        requires
            w == o | wbit | (name_offset << 9u32),
            o <= 0xff,
            wbit == 0x100u32 || wbit == 0u32,
    ;
    assert(0x100u32 >> 8u32 == 1u32 && 0u32 >> 8u32 == 0u32) by (bit_vector);
}

} // verus!
