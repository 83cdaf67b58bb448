//! `DYLD_CHAINED_PTR_64_OFFSET` chained fixups: the per-page chains of one segment and the
//! 64-bit pointer words that encode a bind or a rebase.
use vstd::prelude::*;
use std::collections::BTreeMap;
use crate::bytes::{splice, u64_le_bytes, write_u64_at};
use crate::sorting::{sort_by_key_stable, sorted_by_key, SortKey};
use crate::image::{
    file_end, file_offset_for_address, image_base, segments_well_formed,
    spec_file_offset_for_address, spec_image_base, ImageError, OutputSegment,
};

verus! {

broadcast use vstd::std_specs::btree::group_btree_axioms;

/// The page size that chained-fixup page starts are counted in.
pub const CHAINED_FIXUP_PAGE_SIZE: u64 = 0x4000;
/// The size of one fixed-up pointer.
pub const CHAINED_POINTER_SIZE: u64 = 8;
/// The distance unit of a chain's `next` field.
pub const CHAINED_POINTER_STRIDE: u64 = 4;
/// The largest value of the 12-bit `next` field.
pub const CHAINED_MAX_NEXT: u16 = 0x0fff;
/// The page-start value of a page without fixups.
pub const DYLD_CHAINED_PTR_START_NONE: u16 = 0xffff;
/// The largest import ordinal of a 24-bit bind.
pub const CHAINED_MAX_ORDINAL: usize = 0x00ff_ffff;
/// The exclusive bound of a 36-bit rebase target.
pub const CHAINED_REBASE_TARGET_LIMIT: u64 = 0x10_0000_0000;

/// What a chained pointer resolves to.
#[derive(Debug, Clone, Copy, PartialEq, Eq)]
pub enum ChainedFixupKind {
    /// The `dyld_chained_import` record of a dynamically imported symbol, with the low eight
    /// bits of a data-pointer addend.
    Bind { import_index: usize, addend: u8 },
    /// The link-time address of a local target, slid by dyld.
    Rebase { target: u64 },
}

/// One pointer that dyld fixes up at load time.
#[derive(Debug, Clone, Copy, PartialEq, Eq)]
pub struct ChainedFixup {
    pub address: u64,
    pub kind: ChainedFixupKind,
}

/// Why chained fixups could not be planned or encoded.
#[derive(Debug, Clone, Copy, PartialEq, Eq)]
pub enum ChainedFixupError {
    /// The import ordinal does not fit 24 bits.
    OrdinalTooLarge,
    /// The `next` value does not fit 12 bits.
    NextTooLarge,
    /// A rebase target lies below the image base.
    TargetBeforeImageBase,
    /// A rebase target is 64 GiB or more above the image base.
    TargetTooFar,
    /// The segment's address range overflows.
    SegmentRangeOverflow,
    /// Two fixups share an address.
    DuplicateAddress,
    /// A fixup's pointer is not inside its segment.
    OutsideSegment,
    /// A fixup is not 8-byte aligned.
    Misaligned,
    /// The segment has more pages than a page-start table can describe.
    TooManyPages,
    /// A local GOT fixup is a bind.
    NotARebase,
    /// Two local GOT rebases of one slot name different targets.
    ConflictingRebase,
    /// The image base or a fixup's place in the output file could not be found.
    Image(ImageError),
}

/// The pointer word of a bind: bit 63 set, `next` in bits 51..63, the addend in bits 24..32 and
/// the import ordinal in bits 0..24.
pub open spec fn spec_bind_word(ordinal: u64, addend: u8, next: u16) -> u64 {
    (1u64 << 63u64) | ((next as u64) << 51u64) | ((addend as u64) << 24u64) | ordinal
}

/// The pointer word of a rebase: `next` in bits 51..63 and the image-relative target below.
pub open spec fn spec_rebase_word(offset: u64, next: u16) -> u64 {
    ((next as u64) << 51u64) | offset
}

/// The bind word, or why it cannot be encoded.
pub open spec fn spec_chained_bind_word(ordinal: int, addend: u8, next: u16) -> Result<
    u64,
    ChainedFixupError,
> {
    if ordinal > CHAINED_MAX_ORDINAL {
        Err(ChainedFixupError::OrdinalTooLarge)
    } else if next > CHAINED_MAX_NEXT {
        Err(ChainedFixupError::NextTooLarge)
    } else {
        Ok(spec_bind_word(ordinal as u64, addend, next))
    }
}

/// The rebase word, or why it cannot be encoded.
pub open spec fn spec_chained_rebase_word(target: u64, image_base: u64, next: u16) -> Result<
    u64,
    ChainedFixupError,
> {
    if next > CHAINED_MAX_NEXT {
        Err(ChainedFixupError::NextTooLarge)
    } else if target < image_base {
        Err(ChainedFixupError::TargetBeforeImageBase)
    } else if target - image_base >= CHAINED_REBASE_TARGET_LIMIT {
        Err(ChainedFixupError::TargetTooFar)
    } else {
        Ok(spec_rebase_word((target - image_base) as u64, next))
    }
}

/// A bind word gives back its four fields.
pub proof fn lemma_bind_word_fields(ordinal: u64, addend: u8, next: u16)
    requires
        ordinal <= 0x00ff_ffff,
        next <= 0x0fff,
    ensures
        spec_bind_word(ordinal, addend, next) >> 63u64 == 1,
        (spec_bind_word(ordinal, addend, next) >> 51u64) & 0xfff == next as u64,
        (spec_bind_word(ordinal, addend, next) >> 24u64) & 0xff == addend as u64,
        spec_bind_word(ordinal, addend, next) & 0xff_ffff == ordinal,
{
    let w = spec_bind_word(ordinal, addend, next);
    let n = next as u64;
    let a = addend as u64;
    assert(w == (1u64 << 63u64) | (n << 51u64) | (a << 24u64) | ordinal);
    assert(((1u64 << 63u64) | (n << 51u64) | (a << 24u64) | ordinal) >> 63u64 == 1) by (bit_vector)
        requires
            ordinal <= 0x00ff_ffff,
            n <= 0x0fff,
            a <= 0xff,
    ;
    assert((((1u64 << 63u64) | (n << 51u64) | (a << 24u64) | ordinal) >> 51u64) & 0xfff == n)
        by (bit_vector)
        requires
            ordinal <= 0x00ff_ffff,
            n <= 0x0fff,
            a <= 0xff,
    ;
    assert((((1u64 << 63u64) | (n << 51u64) | (a << 24u64) | ordinal) >> 24u64) & 0xff == a)
        by (bit_vector)
        requires
            ordinal <= 0x00ff_ffff,
            n <= 0x0fff,
            a <= 0xff,
    ;
    assert(((1u64 << 63u64) | (n << 51u64) | (a << 24u64) | ordinal) & 0xff_ffff == ordinal)
        by (bit_vector)
        requires
            ordinal <= 0x00ff_ffff,
            n <= 0x0fff,
            a <= 0xff,
    ;
}

/// A rebase word gives back its `next` field and its target offset, and is no bind.
pub proof fn lemma_rebase_word_fields(offset: u64, next: u16)
    requires
        offset < 0x10_0000_0000,
        next <= 0x0fff,
    ensures
        spec_rebase_word(offset, next) >> 63u64 == 0,
        (spec_rebase_word(offset, next) >> 51u64) & 0xfff == next as u64,
        spec_rebase_word(offset, next) & 0xf_ffff_ffff == offset,
{
    let n = next as u64;
    assert(spec_rebase_word(offset, next) == (n << 51u64) | offset);
    assert(((n << 51u64) | offset) >> 63u64 == 0) by (bit_vector)
        requires
            offset < 0x10_0000_0000,
            n <= 0x0fff,
    ;
    assert((((n << 51u64) | offset) >> 51u64) & 0xfff == n) by (bit_vector)
        requires
            offset < 0x10_0000_0000,
            n <= 0x0fff,
    ;
    assert(((n << 51u64) | offset) & 0xf_ffff_ffff == offset) by (bit_vector)
        requires
            offset < 0x10_0000_0000,
            n <= 0x0fff,
    ;
}

/// Encodes a bind to import `ordinal` with the low eight bits of the addend and the distance to
/// the next fixup of the chain in 4-byte units.
pub fn chained_bind_word(ordinal: usize, addend: u8, next: u16) -> (r: Result<u64, ChainedFixupError>)
    ensures
        r == spec_chained_bind_word(ordinal as int, addend, next),
{
    if ordinal > CHAINED_MAX_ORDINAL {
        return Err(ChainedFixupError::OrdinalTooLarge);
    }
    if next > CHAINED_MAX_NEXT {
        return Err(ChainedFixupError::NextTooLarge);
    }
    Ok((1u64 << 63u64) | ((next as u64) << 51u64) | ((addend as u64) << 24u64) | ordinal as u64)
}

/// Encodes a rebase to `target`, stored relative to the image base, with the distance to the
/// next fixup of the chain in 4-byte units.
pub fn chained_rebase_word(target: u64, image_base: u64, next: u16) -> (r: Result<
    u64,
    ChainedFixupError,
>)
    ensures
        r == spec_chained_rebase_word(target, image_base, next),
{
    if next > CHAINED_MAX_NEXT {
        return Err(ChainedFixupError::NextTooLarge);
    }
    if target < image_base {
        return Err(ChainedFixupError::TargetBeforeImageBase);
    }
    let offset = target - image_base;
    if offset >= CHAINED_REBASE_TARGET_LIMIT {
        return Err(ChainedFixupError::TargetTooFar);
    }
    Ok(((next as u64) << 51u64) | offset)
}


impl SortKey for ChainedFixup {
    open spec fn spec_sort_key(&self) -> u64 {
        self.address
    }

    fn sort_key(&self) -> (r: u64) {
        self.address
    }
}

/// The chained-fixup page of `address` in a segment starting at `start`.
pub open spec fn fixup_page(start: u64, address: u64) -> int {
    (address - start) / (CHAINED_FIXUP_PAGE_SIZE as int)
}

/// The offset of `address` within its chained-fixup page.
pub open spec fn fixup_page_offset(start: u64, address: u64) -> int {
    (address - start) % (CHAINED_FIXUP_PAGE_SIZE as int)
}

/// Whether a fixup's pointer lies within the segment and is 8-byte aligned.
pub open spec fn fixup_in_segment(start: u64, size: u64, address: u64) -> bool {
    &&& start <= address
    &&& address + CHAINED_POINTER_SIZE <= start + size
}

/// Whether the fixups of a segment can be chained: the segment's range does not overflow, no
/// two fixups share an address, every pointer is inside the segment and aligned, and every page
/// index fits the page-start table.
pub open spec fn segment_fixups_valid(start: u64, size: u64, fixups: Seq<ChainedFixup>) -> bool {
    &&& start + size <= u64::MAX
    &&& forall|i: int, j: int|
        0 <= i < fixups.len() && 0 <= j < fixups.len() && i != j ==> (#[trigger] fixups[i]).address
            != (#[trigger] fixups[j]).address
    &&& forall|i: int|
        0 <= i < fixups.len() ==> fixup_in_segment(start, size, (#[trigger] fixups[i]).address)
    &&& forall|i: int| 0 <= i < fixups.len() ==> (#[trigger] fixups[i]).address % 8 == 0
    &&& forall|i: int|
        0 <= i < fixups.len() ==> fixup_page(start, (#[trigger] fixups[i]).address) < 0xffff
}

/// Whether a fixup address breaks the segment's rules: outside the segment, misaligned, or
/// shared by two fixups.
pub open spec fn address_is_bad(start: u64, size: u64, fixups: Seq<ChainedFixup>, x: u64) -> bool {
    ||| !fixup_in_segment(start, size, x)
    ||| x % 8 != 0
    ||| exists|i: int, j: int|
        0 <= i < fixups.len() && 0 <= j < fixups.len() && i != j && (#[trigger] fixups[i]).address == x
            && (#[trigger] fixups[j]).address == x
}

/// Fixup `i` has the lowest address that breaks the rules; the fixups are checked in address
/// order, so that address decides the error.
pub open spec fn first_bad(start: u64, size: u64, fixups: Seq<ChainedFixup>, i: int) -> bool {
    &&& 0 <= i < fixups.len()
    &&& address_is_bad(start, size, fixups, fixups[i].address)
    &&& forall|j: int|
        0 <= j < fixups.len() && address_is_bad(start, size, fixups, (#[trigger] fixups[j]).address)
            ==> fixups[i].address <= fixups[j].address
}

/// The chains of one segment: its fixups by address, the offset of the first fixup of each page
/// (or `DYLD_CHAINED_PTR_START_NONE`), and for each fixup the distance to the next one on its
/// page in 4-byte units (zero at the end of a chain).
#[derive(Debug, PartialEq, Eq)]
pub struct SegmentChainedFixups {
    pub segment_index: usize,
    pub segment_start: u64,
    pub page_starts: Vec<u16>,
    pub fixups: Vec<ChainedFixup>,
    pub next_by_fixup: Vec<u16>,
}

/// An encoded rebase word gives back the target: its low 36 bits plus the image base are the
/// target, its `next` field is `next`, and its bind bit is clear.
pub proof fn lemma_chained_rebase_word_target(target: u64, image_base: u64, next: u16)
    ensures
        spec_chained_rebase_word(target, image_base, next) matches Ok(w) ==> (w & 0xf_ffff_ffff)
            + image_base == target && (w >> 51u64) & 0xfff == next as u64 && w >> 63u64 == 0,
        next <= 0x0fff && image_base <= target && target - image_base < 0x10_0000_0000 ==> spec_chained_rebase_word(target, image_base, next) is Ok,
{
    if next <= 0x0fff && image_base <= target && target - image_base < 0x10_0000_0000 {
        lemma_rebase_word_fields((target - image_base) as u64, next);
    }
}

/// An encoded bind word gives back the import: its low 24 bits are the ordinal, bits 24..32
/// the addend, bits 51..63 `next`, and its bind bit is set.
pub proof fn lemma_chained_bind_word_import(ordinal: int, addend: u8, next: u16)
    requires
        0 <= ordinal,
    ensures
        spec_chained_bind_word(ordinal, addend, next) matches Ok(w) ==> w & 0xff_ffff == ordinal
            && (w >> 24u64) & 0xff == addend as u64 && (w >> 51u64) & 0xfff == next as u64 && w
            >> 63u64 == 1,
        0 <= ordinal <= 0xff_ffff && next <= 0x0fff ==> spec_chained_bind_word(ordinal, addend, next) is Ok,
{
    if 0 <= ordinal <= 0xff_ffff && next <= 0x0fff {
        lemma_bind_word_fields(ordinal as u64, addend, next);
    }
}

/// Within a page, a fixup's `next` counts four-byte strides to the following fixup of the same
/// page, so the chain reaches it exactly; the last fixup of a page has `next` zero.
pub proof fn lemma_chain_next_reaches(start: u64, fixups: Seq<ChainedFixup>, i: int)
    requires
        0 <= i < fixups.len(),
        i + 1 < fixups.len() ==> fixups[i].address < fixups[i + 1].address,
        i + 1 < fixups.len() ==> (fixups[i + 1].address - fixups[i].address) % 8 == 0,
    ensures
        chain_next(start, fixups, i) != 0 ==> fixups[i].address + 4 * chain_next(start, fixups, i)
            == fixups[i + 1].address,
        i + 1 < fixups.len() && fixup_page(start, fixups[i + 1].address) == fixup_page(start, fixups[i].address)
            ==> chain_next(start, fixups, i) != 0,
{
    if i + 1 < fixups.len() {
        let d = fixups[i + 1].address - fixups[i].address;
        assert(d > 0);
        assert(d == 4 * (d / 4)) by (nonlinear_arith)
            requires
                d % 8 == 0,
                d > 0,
        ;
    }
}

/// The chains of every segment that has fixups.
#[derive(Debug, PartialEq, Eq)]
pub struct ChainedFixups {
    pub segments: Vec<SegmentChainedFixups>,
}

/// Whether fixup `i` of the address-ordered `fixups` starts the chain of its page.
pub open spec fn starts_page(start: u64, fixups: Seq<ChainedFixup>, i: int) -> bool {
    i == 0 || fixup_page(start, fixups[i - 1].address) != fixup_page(start, fixups[i].address)
}

/// The `next` value of fixup `i` of the address-ordered `fixups`.
pub open spec fn chain_next(start: u64, fixups: Seq<ChainedFixup>, i: int) -> int {
    if i + 1 < fixups.len() && fixup_page(start, fixups[i + 1].address) == fixup_page(
        start,
        fixups[i].address,
    ) {
        (fixups[i + 1].address - fixups[i].address) / (CHAINED_POINTER_STRIDE as int)
    } else {
        0
    }
}

/// Whether `plan` is the chain layout of `fixups` in a segment starting at `start`.
pub open spec fn is_segment_plan(
    plan: SegmentChainedFixups,
    segment_index: usize,
    start: u64,
    fixups: Seq<ChainedFixup>,
) -> bool {
    let f = plan.fixups@;
    let n = f.len();
    &&& plan.segment_index == segment_index
    &&& plan.segment_start == start
    &&& f.to_multiset() == fixups.to_multiset()
    &&& n == fixups.len()
    &&& forall|i: int, j: int| 0 <= i < j < n ==> (#[trigger] f[i]).address < (#[trigger] f[j]).address
    &&& plan.next_by_fixup@.len() == n
    &&& n == 0 ==> plan.page_starts@.len() == 0
    &&& n > 0 ==> plan.page_starts@.len() == fixup_page(start, f[n - 1].address) + 1
    &&& forall|i: int|
        0 <= i < n && #[trigger] starts_page(start, f, i) ==> plan.page_starts@[fixup_page(
            start,
            f[i].address,
        )] as int == fixup_page_offset(start, f[i].address)
    &&& forall|p: int|
        0 <= p < plan.page_starts@.len() && (forall|i: int|
            0 <= i < n ==> fixup_page(start, (#[trigger] f[i]).address) != p)
            ==> #[trigger] plan.page_starts@[p] == DYLD_CHAINED_PTR_START_NONE
    &&& forall|i: int|
        0 <= i < n ==> #[trigger] plan.next_by_fixup@[i] as int == chain_next(start, f, i)
}

/// Page indices never decrease with the address, and two addresses on one page are less than
/// a page apart.
proof fn lemma_fixup_page_order(start: u64, a: u64, b: u64)
    requires
        start <= a <= b,
    ensures
        fixup_page(start, a) <= fixup_page(start, b),
        fixup_page(start, a) == fixup_page(start, b) ==> b - a < CHAINED_FIXUP_PAGE_SIZE,
        0 <= fixup_page_offset(start, a) < CHAINED_FIXUP_PAGE_SIZE,
        fixup_page(start, a) * 0x4000 + fixup_page_offset(start, a) == a - start,
{
    let x = a - start;
    let y = b - start;
    assert(x / 0x4000 <= y / 0x4000) by (nonlinear_arith)
        requires
            0 <= x <= y,
    ;
    assert(x / 0x4000 == y / 0x4000 ==> y - x < 0x4000) by (nonlinear_arith)
        requires
            0 <= x <= y,
    ;
}

/// When the first `i` fixups in address order passed the checks, every address below the
/// `i`-th (or every address, when `i` is the count) is good.
proof fn lemma_checked_prefix_good(
    start: u64,
    size: u64,
    fixups: Seq<ChainedFixup>,
    sorted: Seq<ChainedFixup>,
    perm: Seq<int>,
    inv: Seq<int>,
    i: int,
)
    requires
        sorted.len() == fixups.len(),
        perm.len() == fixups.len(),
        inv.len() == fixups.len(),
        0 <= i <= fixups.len(),
        sorted_by_key(sorted),
        forall|k: int|
            0 <= k < fixups.len() ==> 0 <= #[trigger] perm[k] < fixups.len() && sorted[k] == fixups[perm[k]]
                && inv[perm[k]] == k,
        forall|j: int|
            0 <= j < fixups.len() ==> 0 <= #[trigger] inv[j] < fixups.len() && sorted[inv[j]] == fixups[j]
                && perm[inv[j]] == j,
        forall|a: int, b: int| 0 <= a < b < i ==> (#[trigger] sorted[a]).address < (#[trigger] sorted[b]).address,
        forall|a: int| 0 <= a < i ==> fixup_in_segment(start, size, (#[trigger] sorted[a]).address),
        forall|a: int| 0 <= a < i ==> (#[trigger] sorted[a]).address % 8 == 0,
    ensures
        forall|j: int|
            0 <= j < fixups.len() && (i == fixups.len() || (#[trigger] fixups[j]).address < sorted[i].address)
                ==> !address_is_bad(start, size, fixups, fixups[j].address),
{
    assert forall|j: int|
        0 <= j < fixups.len() && (i == fixups.len() || (#[trigger] fixups[j]).address < sorted[i].address)
        implies !address_is_bad(start, size, fixups, fixups[j].address) by {
        let k = inv[j];
        assert(sorted[k] == fixups[j]);
        if k >= i {
            if i < fixups.len() {
                assert(sorted[i].address <= sorted[k].address);
            }
        }
        assert(k < i);
        if exists|a: int, b: int|
            0 <= a < fixups.len() && 0 <= b < fixups.len() && a != b && (#[trigger] fixups[a]).address
                == fixups[j].address && (#[trigger] fixups[b]).address == fixups[j].address {
            let (a, b) = choose|a: int, b: int|
                0 <= a < fixups.len() && 0 <= b < fixups.len() && a != b && (#[trigger] fixups[a]).address
                    == fixups[j].address && (#[trigger] fixups[b]).address == fixups[j].address;
            let ka = inv[a];
            let kb = inv[b];
            assert(sorted[ka] == fixups[a]);
            assert(sorted[kb] == fixups[b]);
            assert(ka != kb);
            if ka >= i {
                if i < fixups.len() {
                    assert(sorted[i].address <= sorted[ka].address);
                }
            }
            if kb >= i {
                if i < fixups.len() {
                    assert(sorted[i].address <= sorted[kb].address);
                }
            }
            if ka < kb {
                assert(sorted[ka].address < sorted[kb].address);
            } else {
                assert(sorted[kb].address < sorted[ka].address);
            }
        }
    }
}

/// Lays out the chains of one segment. Fixups are ordered by address; each 16 KiB page of the
/// segment gets the offset of its first fixup (or `DYLD_CHAINED_PTR_START_NONE`), and each fixup
/// the distance to the next fixup of its page. Fails when the segment's range overflows, two
/// fixups share an address, a pointer lies outside the segment or is misaligned, or the segment
/// has too many pages; when several fixups break the rules, the lowest such address decides
/// which error comes, as the fixups are checked in address order.
pub fn plan_segment_chained_fixups(
    segment_index: usize,
    segment_start: u64,
    segment_size: u64,
    fixups: Vec<ChainedFixup>,
) -> (r: Result<SegmentChainedFixups, ChainedFixupError>)
    ensures
        r is Ok <==> segment_fixups_valid(segment_start, segment_size, fixups@),
        r matches Ok(plan) ==> is_segment_plan(plan, segment_index, segment_start, fixups@),
        r == Err::<SegmentChainedFixups, ChainedFixupError>(
            ChainedFixupError::SegmentRangeOverflow,
        ) <==> segment_start + segment_size > u64::MAX,
        r == Err::<SegmentChainedFixups, ChainedFixupError>(ChainedFixupError::DuplicateAddress)
            ==> exists|i: int, j: int|
            0 <= i < fixups@.len() && 0 <= j < fixups@.len() && i != j && (
            #[trigger] fixups@[i]).address == (#[trigger] fixups@[j]).address,
        r == Err::<SegmentChainedFixups, ChainedFixupError>(ChainedFixupError::OutsideSegment)
            ==> exists|i: int|
            0 <= i < fixups@.len() && !fixup_in_segment(
                segment_start,
                segment_size,
                (#[trigger] fixups@[i]).address,
            ),
        r == Err::<SegmentChainedFixups, ChainedFixupError>(ChainedFixupError::Misaligned)
            ==> exists|i: int| 0 <= i < fixups@.len() && (#[trigger] fixups@[i]).address % 8 != 0,
        r == Err::<SegmentChainedFixups, ChainedFixupError>(ChainedFixupError::TooManyPages)
            ==> exists|i: int|
            0 <= i < fixups@.len() && fixup_page(segment_start, (#[trigger] fixups@[i]).address)
                >= 0xffff,
        r matches Err(e) ==> e is SegmentRangeOverflow || e is DuplicateAddress
            || e is OutsideSegment || e is Misaligned || e is TooManyPages,
        r == Err::<SegmentChainedFixups, ChainedFixupError>(ChainedFixupError::OutsideSegment)
            ==> exists|i: int| #[trigger] first_bad(segment_start, segment_size, fixups@, i)
            && !fixup_in_segment(segment_start, segment_size, fixups@[i].address),
        r == Err::<SegmentChainedFixups, ChainedFixupError>(ChainedFixupError::Misaligned)
            ==> exists|i: int| #[trigger] first_bad(segment_start, segment_size, fixups@, i)
            && fixup_in_segment(segment_start, segment_size, fixups@[i].address)
            && fixups@[i].address % 8 != 0,
        r == Err::<SegmentChainedFixups, ChainedFixupError>(ChainedFixupError::DuplicateAddress)
            ==> exists|i: int| #[trigger] first_bad(segment_start, segment_size, fixups@, i)
            && fixup_in_segment(segment_start, segment_size, fixups@[i].address)
            && fixups@[i].address % 8 == 0,
        r == Err::<SegmentChainedFixups, ChainedFixupError>(ChainedFixupError::TooManyPages)
            ==> forall|i: int| 0 <= i < fixups@.len() ==> !address_is_bad(
            segment_start,
            segment_size,
            fixups@,
            (#[trigger] fixups@[i]).address,
        ),
{
    if segment_start > u64::MAX - segment_size {
        return Err(ChainedFixupError::SegmentRangeOverflow);
    }
    let segment_end = segment_start + segment_size;
    if fixups.len() == 0 {
        return Ok(
            SegmentChainedFixups {
                segment_index,
                segment_start,
                page_starts: Vec::new(),
                fixups,
                next_by_fixup: Vec::new(),
            },
        );
    }
    let (sorted, Ghost(perm), Ghost(inv)) = sort_by_key_stable(&fixups);
    let n = sorted.len();
    let mut i: usize = 0;
    while i < n
        invariant
            n == sorted@.len(),
            n == fixups@.len(),
            segment_end == segment_start + segment_size,
            sorted_by_key(sorted@),
            0 <= i <= n,
            perm.len() == n,
            inv.len() == n,
            forall|k: int|
                0 <= k < n ==> 0 <= #[trigger] perm[k] < n && sorted@[k] == fixups@[perm[k]]
                    && inv[perm[k]] == k,
            forall|j: int|
                0 <= j < n ==> 0 <= #[trigger] inv[j] < n && sorted@[inv[j]] == fixups@[j]
                    && perm[inv[j]] == j,
            forall|a: int, b: int|
                0 <= a < b < i ==> (#[trigger] sorted@[a]).address < (#[trigger] sorted@[b]).address,
            forall|a: int|
                0 <= a < i ==> fixup_in_segment(
                    segment_start,
                    segment_size,
                    (#[trigger] sorted@[a]).address,
                ),
            forall|a: int| 0 <= a < i ==> (#[trigger] sorted@[a]).address % 8 == 0,
        decreases n - i,
    {
        let address = sorted[i].address;
        proof {
            lemma_checked_prefix_good(segment_start, segment_size, fixups@, sorted@, perm, inv, i as int);
        }
        if i != 0 && address <= sorted[i - 1].address {
            proof {
                let k = i as int;
                assert(sorted@[k - 1].address <= sorted@[k].address);
                assert(fixups@[perm[k]].address == fixups@[perm[k - 1]].address);
                assert(inv[perm[k]] == k);
                assert(inv[perm[k - 1]] == k - 1);
                let p = perm[k - 1];
                assert(fixups@[p] == sorted@[k - 1]);
                assert(address_is_bad(segment_start, segment_size, fixups@, fixups@[p].address));
                assert(first_bad(segment_start, segment_size, fixups@, p));
            }
            return Err(ChainedFixupError::DuplicateAddress);
        }
        if !(address >= segment_start && address <= u64::MAX - CHAINED_POINTER_SIZE && address
            + CHAINED_POINTER_SIZE <= segment_end) {
            proof {
                assert(fixups@[perm[i as int]] == sorted@[i as int]);
                assert(first_bad(segment_start, segment_size, fixups@, perm[i as int]));
            }
            return Err(ChainedFixupError::OutsideSegment);
        }
        if address % 8 != 0 {
            proof {
                assert(fixups@[perm[i as int]] == sorted@[i as int]);
                assert(first_bad(segment_start, segment_size, fixups@, perm[i as int]));
            }
            return Err(ChainedFixupError::Misaligned);
        }
        proof {
            assert forall|a: int, b: int| 0 <= a < b < i + 1 implies (
            #[trigger] sorted@[a]).address < (#[trigger] sorted@[b]).address by {
                if b == i && a < i - 1 {
                    assert(sorted@[a].address < sorted@[i - 1].address);
                }
            }
        }
        i = i + 1;
    }
    let last_page = (sorted[n - 1].address - segment_start) / CHAINED_FIXUP_PAGE_SIZE;
    if last_page >= 0xffff {
        proof {
            let k = (n - 1) as int;
            assert(fixups@[perm[k]] == sorted@[k]);
            lemma_checked_prefix_good(segment_start, segment_size, fixups@, sorted@, perm, inv, n as int);
        }
        return Err(ChainedFixupError::TooManyPages);
    }
    let page_count = (last_page + 1) as usize;
    proof {
        assert forall|a: int| 0 <= a < n implies fixup_page(
            segment_start,
            (#[trigger] sorted@[a]).address,
        ) <= last_page by {
            lemma_fixup_page_order(segment_start, sorted@[a].address, sorted@[n - 1].address);
        }
    }
    let mut page_starts: Vec<u16> = Vec::new();
    while page_starts.len() < page_count
        invariant
            page_starts@.len() <= page_count,
            forall|p: int|
                0 <= p < page_starts@.len() ==> #[trigger] page_starts@[p]
                    == DYLD_CHAINED_PTR_START_NONE,
        decreases page_count - page_starts@.len(),
    {
        page_starts.push(DYLD_CHAINED_PTR_START_NONE);
    }
    let mut next_by_fixup: Vec<u16> = Vec::new();
    while next_by_fixup.len() < n
        invariant
            next_by_fixup@.len() <= n,
            forall|j: int| 0 <= j < next_by_fixup@.len() ==> #[trigger] next_by_fixup@[j] == 0,
        decreases n - next_by_fixup@.len(),
    {
        next_by_fixup.push(0);
    }
    let mut i: usize = 0;
    while i < n
        invariant
            n == sorted@.len(),
            n > 0,
            page_count == last_page + 1,
            last_page < 0xffff,
            last_page == fixup_page(segment_start, sorted@[n - 1].address),
            page_starts@.len() == page_count,
            next_by_fixup@.len() == n,
            0 <= i <= n,
            forall|a: int, b: int|
                0 <= a < b < n ==> (#[trigger] sorted@[a]).address < (#[trigger] sorted@[b]).address,
            forall|a: int| 0 <= a < n ==> segment_start <= (#[trigger] sorted@[a]).address,
            forall|a: int| 0 <= a < n ==> (#[trigger] sorted@[a]).address % 8 == 0,
            forall|a: int|
                0 <= a < n ==> fixup_page(segment_start, (#[trigger] sorted@[a]).address)
                    <= last_page,
            forall|a: int|
                0 <= a < i && #[trigger] starts_page(segment_start, sorted@, a)
                    ==> page_starts@[fixup_page(segment_start, sorted@[a].address)] as int
                    == fixup_page_offset(segment_start, sorted@[a].address),
            forall|p: int|
                0 <= p < page_count && (forall|a: int|
                    0 <= a < i ==> fixup_page(segment_start, (#[trigger] sorted@[a]).address) != p)
                    ==> #[trigger] page_starts@[p] == DYLD_CHAINED_PTR_START_NONE,
            forall|a: int|
                0 <= a < n ==> #[trigger] next_by_fixup@[a] as int == if a + 1 < i {
                    chain_next(segment_start, sorted@, a)
                } else {
                    0
                },
        decreases n - i,
    {
        let address = sorted[i].address;
        let offset = address - segment_start;
        proof {
            lemma_fixup_page_order(segment_start, address, address);
        }
        let page = (offset / CHAINED_FIXUP_PAGE_SIZE) as usize;
        let page_offset = (offset % CHAINED_FIXUP_PAGE_SIZE) as u16;
        let ghost old_starts = page_starts@;
        let ghost old_next = next_by_fixup@;
        if i == 0 || (sorted[i - 1].address - segment_start) / CHAINED_FIXUP_PAGE_SIZE != offset
            / CHAINED_FIXUP_PAGE_SIZE {
            proof {
                if i > 0 {
                    assert forall|a: int| 0 <= a < i implies fixup_page(
                        segment_start,
                        (#[trigger] sorted@[a]).address,
                    ) < page by {
                        lemma_fixup_page_order(segment_start, sorted@[a].address, sorted@[i - 1].address);
                        lemma_fixup_page_order(segment_start, sorted@[i - 1].address, address);
                    }
                }
            }
            page_starts.set(page, page_offset);
            proof {
                assert forall|a: int|
                    0 <= a < i + 1 && #[trigger] starts_page(segment_start, sorted@, a) implies page_starts@[fixup_page(
                    segment_start,
                    sorted@[a].address,
                )] as int == fixup_page_offset(segment_start, sorted@[a].address) by {
                    if a < i {
                        assert(fixup_page(segment_start, sorted@[a].address) < page);
                    }
                }
                assert forall|p: int|
                    0 <= p < page_count && (forall|a: int|
                        0 <= a < i + 1 ==> fixup_page(segment_start, (#[trigger] sorted@[a]).address)
                            != p) implies #[trigger] page_starts@[p] == DYLD_CHAINED_PTR_START_NONE by {
                    assert(fixup_page(segment_start, sorted@[i as int].address) != p);
                    assert(page_starts@[p] == old_starts[p]);
                }
                assert forall|a: int| 0 <= a < n implies #[trigger] next_by_fixup@[a] as int == if a
                    + 1 < i + 1 {
                    chain_next(segment_start, sorted@, a)
                } else {
                    0
                } by {
                    if a == i - 1 {
                        assert(old_next[a] == 0);
                    }
                }
            }
        } else {
            let previous = sorted[i - 1].address;
            proof {
                lemma_fixup_page_order(segment_start, previous, address);
            }
            let delta = address - previous;
            let next = (delta / CHAINED_POINTER_STRIDE) as u16;
            next_by_fixup.set(i - 1, next);
            proof {
                assert forall|a: int|
                    0 <= a < i + 1 && #[trigger] starts_page(segment_start, sorted@, a) implies page_starts@[fixup_page(
                    segment_start,
                    sorted@[a].address,
                )] as int == fixup_page_offset(segment_start, sorted@[a].address) by {
                    if a == i {
                        assert(!starts_page(segment_start, sorted@, a));
                    }
                }
                assert forall|p: int|
                    0 <= p < page_count && (forall|a: int|
                        0 <= a < i + 1 ==> fixup_page(segment_start, (#[trigger] sorted@[a]).address)
                            != p) implies #[trigger] page_starts@[p] == DYLD_CHAINED_PTR_START_NONE by {
                    assert(fixup_page(segment_start, sorted@[i - 1].address) != p);
                }
                assert forall|a: int| 0 <= a < n implies #[trigger] next_by_fixup@[a] as int == if a
                    + 1 < i + 1 {
                    chain_next(segment_start, sorted@, a)
                } else {
                    0
                } by {
                    if a == i - 1 {
                        assert(chain_next(segment_start, sorted@, a) == delta / 4);
                    } else {
                        assert(next_by_fixup@[a] == old_next[a]);
                    }
                }
            }
        }
        i = i + 1;
    }
    let plan = SegmentChainedFixups {
        segment_index,
        segment_start,
        page_starts,
        fixups: sorted,
        next_by_fixup,
    };
    proof {
        assert forall|a: int| 0 <= a < n implies #[trigger] plan.next_by_fixup@[a] as int
            == chain_next(segment_start, plan.fixups@, a) by {
            if a + 1 >= n {
                assert(chain_next(segment_start, plan.fixups@, a) == 0);
            }
        }
        assert forall|x: int, y: int|
            0 <= x < fixups@.len() && 0 <= y < fixups@.len() && x != y implies (
        #[trigger] fixups@[x]).address != (#[trigger] fixups@[y]).address by {
            assert(fixups@[x] == sorted@[inv[x]]);
            assert(fixups@[y] == sorted@[inv[y]]);
            assert(inv[x] != inv[y]);
        }
        assert forall|x: int| 0 <= x < fixups@.len() implies fixup_in_segment(
            segment_start,
            segment_size,
            (#[trigger] fixups@[x]).address,
        ) && fixups@[x].address % 8 == 0 && fixup_page(segment_start, fixups@[x].address) < 0xffff by {
            assert(fixups@[x] == sorted@[inv[x]]);
        }
    }
    Ok(plan)
}

/// The pointer word of a fixup with the given `next` value.
pub open spec fn spec_fixup_word(fixup: ChainedFixup, next: u16, image_base: u64) -> Result<
    u64,
    ChainedFixupError,
> {
    match fixup.kind {
        ChainedFixupKind::Bind { import_index, addend } => spec_chained_bind_word(
            import_index as int,
            addend,
            next,
        ),
        ChainedFixupKind::Rebase { target } => spec_chained_rebase_word(target, image_base, next),
    }
}

/// The file offset and pointer word of fixup `i` of a segment's chains.
pub open spec fn spec_fixup_write(
    segments: Seq<OutputSegment>,
    image_base: u64,
    plan: SegmentChainedFixups,
    i: int,
) -> Result<(int, u64), ChainedFixupError> {
    match spec_fixup_word(plan.fixups@[i], plan.next_by_fixup@[i], image_base) {
        Err(e) => Err(e),
        Ok(word) => match spec_file_offset_for_address(segments, plan.fixups@[i].address, 8) {
            Err(e) => Err(ChainedFixupError::Image(e)),
            Ok(offset) => Ok((offset, word)),
        },
    }
}

/// The fixups of a segment's chains that carry a `next` value.
pub open spec fn chain_len(plan: SegmentChainedFixups) -> int {
    if plan.fixups@.len() <= plan.next_by_fixup@.len() {
        plan.fixups@.len() as int
    } else {
        plan.next_by_fixup@.len() as int
    }
}

/// `out` with the pointer words of the first `k` fixups of a segment written in order.
pub open spec fn apply_segment_writes(
    out: Seq<u8>,
    segments: Seq<OutputSegment>,
    image_base: u64,
    plan: SegmentChainedFixups,
    k: int,
) -> Seq<u8>
    decreases k,
{
    if k <= 0 {
        out
    } else {
        let prev = apply_segment_writes(out, segments, image_base, plan, k - 1);
        match spec_fixup_write(segments, image_base, plan, k - 1) {
            Ok(w) => splice(prev, w.0, u64_le_bytes(w.1)),
            Err(_) => prev,
        }
    }
}

/// `out` with the pointer words of the first `s` segments' chains written in order.
pub open spec fn apply_plan_writes(
    out: Seq<u8>,
    segments: Seq<OutputSegment>,
    image_base: u64,
    plans: Seq<SegmentChainedFixups>,
    s: int,
) -> Seq<u8>
    decreases s,
{
    if s <= 0 {
        out
    } else {
        apply_segment_writes(
            apply_plan_writes(out, segments, image_base, plans, s - 1),
            segments,
            image_base,
            plans[s - 1],
            chain_len(plans[s - 1]),
        )
    }
}

/// Whether every fixup of every chain can be encoded and placed in the file.
pub open spec fn plan_writes_ok(
    segments: Seq<OutputSegment>,
    image_base: u64,
    plans: Seq<SegmentChainedFixups>,
) -> bool {
    forall|s: int, i: int|
        0 <= s < plans.len() && 0 <= i < chain_len(plans[s]) ==> (#[trigger] spec_fixup_write(
            segments,
            image_base,
            plans[s],
            i,
        )) is Ok
}

/// Writes the encoded pointer of every chained fixup at its place in the output file: binds
/// carry their import ordinal and addend, rebases their image-relative target, and both the
/// distance to the next fixup of the chain.
pub fn write_chained_fixup_pointers(
    segments: &[OutputSegment],
    chained_fixups: &ChainedFixups,
    output: &mut [u8],
) -> (r: Result<(), ChainedFixupError>)
    requires
        segments_well_formed(segments@),
        forall|i: int| 0 <= i < segments@.len() ==> file_end(#[trigger] segments@[i]) <= old(output)@.len(),
    ensures
        final(output)@.len() == old(output)@.len(),
        r is Ok <==> spec_image_base(segments@) is Ok && plan_writes_ok(
            segments@,
            spec_image_base(segments@)->Ok_0,
            chained_fixups.segments@,
        ),
        r is Ok ==> final(output)@ == apply_plan_writes(
            old(output)@,
            segments@,
            spec_image_base(segments@)->Ok_0,
            chained_fixups.segments@,
            chained_fixups.segments@.len() as int,
        ),
        spec_image_base(segments@) matches Err(e) ==> r == Err::<(), ChainedFixupError>(
            ChainedFixupError::Image(e),
        ),
{
    let base = match image_base(segments) {
        Ok(base) => base,
        Err(e) => {
            return Err(ChainedFixupError::Image(e));
        },
    };
    let plans = &chained_fixups.segments;
    let mut s: usize = 0;
    while s < plans.len()
        invariant
            segments_well_formed(segments@),
            forall|i: int|
                0 <= i < segments@.len() ==> file_end(#[trigger] segments@[i]) <= output@.len(),
            output@.len() == old(output)@.len(),
            base == spec_image_base(segments@)->Ok_0,
            spec_image_base(segments@) is Ok,
            plans@ == chained_fixups.segments@,
            0 <= s <= plans@.len(),
            forall|t: int, i: int|
                0 <= t < s && 0 <= i < chain_len(plans@[t]) ==> (#[trigger] spec_fixup_write(
                    segments@,
                    base,
                    plans@[t],
                    i,
                )) is Ok,
            output@ == apply_plan_writes(old(output)@, segments@, base, plans@, s as int),
        decreases plans@.len() - s,
    {
        let plan = &plans[s];
        let count = if plan.fixups.len() <= plan.next_by_fixup.len() {
            plan.fixups.len()
        } else {
            plan.next_by_fixup.len()
        };
        let ghost start = output@;
        let mut i: usize = 0;
        while i < count
            invariant
                segments_well_formed(segments@),
                forall|j: int|
                    0 <= j < segments@.len() ==> file_end(#[trigger] segments@[j]) <= output@.len(),
                output@.len() == old(output)@.len(),
                base == spec_image_base(segments@)->Ok_0,
                spec_image_base(segments@) is Ok,
                s < plans@.len(),
                plans@ == chained_fixups.segments@,
                *plan == plans@[s as int],
                count == chain_len(*plan),
                0 <= i <= count,
                forall|j: int|
                    0 <= j < i ==> (#[trigger] spec_fixup_write(segments@, base, *plan, j)) is Ok,
                output@ == apply_segment_writes(start, segments@, base, *plan, i as int),
            decreases count - i,
        {
            let fixup = plan.fixups[i];
            let next = plan.next_by_fixup[i];
            let encoded = match fixup.kind {
                ChainedFixupKind::Bind { import_index, addend } => chained_bind_word(
                    import_index,
                    addend,
                    next,
                ),
                ChainedFixupKind::Rebase { target } => chained_rebase_word(target, base, next),
            };
            let word = match encoded {
                Ok(word) => word,
                Err(e) => {
                    assert(spec_fixup_write(segments@, base, plans@[s as int], i as int) is Err);
                    return Err(e);
                },
            };
            let offset = match file_offset_for_address(segments, fixup.address, 8) {
                Ok(offset) => offset,
                Err(e) => {
                    assert(spec_fixup_write(segments@, base, plans@[s as int], i as int) is Err);
                    return Err(ChainedFixupError::Image(e));
                },
            };
            proof {
                crate::image::lemma_file_offset_in_file(segments@, fixup.address, 8);
            }
            write_u64_at(output, offset, word);
            i = i + 1;
        }
        s = s + 1;
    }
    Ok(())
}

/// The rebase table after recording a local GOT fixup, or why it cannot be recorded: only a
/// rebase can be recorded, and a slot keeps the one target it was first given.
pub open spec fn spec_insert_local_got_rebase(rebases: Map<u64, u64>, fixup: ChainedFixup) -> Result<
    Map<u64, u64>,
    ChainedFixupError,
> {
    match fixup.kind {
        ChainedFixupKind::Bind { .. } => Err(ChainedFixupError::NotARebase),
        ChainedFixupKind::Rebase { target } => if rebases.contains_key(fixup.address)
            && rebases[fixup.address] != target {
            Err(ChainedFixupError::ConflictingRebase)
        } else {
            Ok(rebases.insert(fixup.address, target))
        },
    }
}

/// Records the rebase of a local GOT slot: a slot is rebased once, and a second request for the
/// same slot must name the same target.
pub fn insert_local_got_rebase(rebases: &mut BTreeMap<u64, u64>, fixup: ChainedFixup) -> (r:
    Result<(), ChainedFixupError>)
    ensures
        match spec_insert_local_got_rebase(old(rebases)@, fixup) {
            Ok(m) => r is Ok && final(rebases)@ == m,
            Err(e) => r == Err::<(), ChainedFixupError>(e) && final(rebases)@ == old(rebases)@,
        },
        fixup.kind is Bind ==> r == Err::<(), ChainedFixupError>(ChainedFixupError::NotARebase)
            && final(rebases)@ == old(rebases)@,
        fixup.kind matches ChainedFixupKind::Rebase { target } ==> {
            &&& old(rebases)@.contains_key(fixup.address) && old(rebases)@[fixup.address]
                != target ==> r == Err::<(), ChainedFixupError>(
                ChainedFixupError::ConflictingRebase,
            ) && final(rebases)@ == old(rebases)@
            &&& !(old(rebases)@.contains_key(fixup.address) && old(rebases)@[fixup.address]
                != target) ==> r is Ok && final(rebases)@ == old(rebases)@.insert(
                fixup.address,
                target,
            )
        },
{
    let target = match fixup.kind {
        ChainedFixupKind::Rebase { target } => target,
        ChainedFixupKind::Bind { .. } => {
            return Err(ChainedFixupError::NotARebase);
        },
    };
    match rebases.get(&fixup.address) {
        Some(previous) => {
            if *previous != target {
                return Err(ChainedFixupError::ConflictingRebase);
            }
            assert(old(rebases)@.insert(fixup.address, target) =~= old(rebases)@);
            Ok(())
        },
        None => {
            rebases.insert(fixup.address, target);
            Ok(())
        },
    }
}

/// Recording a rebase twice leaves the table as recording it once, and a recorded slot never
/// changes its target.
pub proof fn lemma_local_got_rebase_idempotent(
    rebases: Map<u64, u64>,
    address: u64,
    target: u64,
)
    ensures
        rebases.insert(address, target).insert(address, target) == rebases.insert(address, target),
        rebases.insert(address, target).contains_key(address) && rebases.insert(address, target)[address] == target,
{
    assert(rebases.insert(address, target).insert(address, target) =~= rebases.insert(
        address,
        target,
    ));
}

} // verus!
