//! Copying the live subsections of an input section into its compacted output: each live range
//! goes to the next offset that meets its alignment, gaps are zero, and bytes past the end of
//! the input (zero-fill) are zero.
use vstd::prelude::*;
use vstd::arithmetic::power2::pow2;

verus! {

/// A live range of an input section, in input offsets, with the alignment exponent of its atom.
#[derive(Debug, Clone, Copy, PartialEq, Eq)]
pub struct LiveRange {
    pub start: u64,
    pub end: u64,
    pub alignment_exponent: u32,
}

/// Why the live subsections could not be copied.
#[derive(Debug, Clone, Copy, PartialEq, Eq)]
pub enum SectionCopyError {
    /// A range's offsets do not fit `usize`.
    RangeTooLarge,
    /// A range ends before it starts.
    InvalidRange,
    /// An output offset overflows.
    SizeOverflow,
    /// A range reaches past the output allocation.
    ExceedsAllocation,
    /// The compacted ranges do not fill the output exactly.
    SizeMismatch,
}

/// Where one live range goes: its output offset and its input range.
#[derive(Debug, Clone, Copy, PartialEq, Eq)]
pub struct Placement {
    pub output_offset: usize,
    pub start: usize,
    pub end: usize,
}

/// `x` rounded up to a multiple of `2^e`.
pub open spec fn align_up(x: int, e: nat) -> int {
    let a = pow2(e) as int;
    if x % a == 0 {
        x
    } else {
        x + (a - x % a)
    }
}

/// Aligning up gives the least multiple of `2^e` that is at least `x`.
pub proof fn lemma_align_up(x: int, e: nat)
    requires
        0 <= x,
    ensures
        align_up(x, e) % (pow2(e) as int) == 0,
        x <= align_up(x, e) < x + pow2(e),
{
    vstd::arithmetic::power2::lemma_pow2_pos(e);
    let a = pow2(e) as int;
    if x % a != 0 {
        vstd::arithmetic::div_mod::lemma_fundamental_div_mod(x, a);
        vstd::arithmetic::div_mod::lemma_mod_multiples_basic(x / a + 1, a);
        assert(x + (a - x % a) == (x / a + 1) * a) by (nonlinear_arith)
            requires
                x == a * (x / a) + x % a,
        ;
    }
}

/// The end in the output of the last of the first `n` placements, zero for none.
pub open spec fn placed_end(placements: Seq<Placement>, n: int) -> int {
    if n <= 0 {
        0
    } else {
        placements[n - 1].output_offset + (placements[n - 1].end - placements[n - 1].start)
    }
}

/// The placements of the first `n` ranges in an output of `len` bytes, or why one cannot be
/// placed: each follows the previous one at its alignment.
pub open spec fn spec_placements(ranges: Seq<LiveRange>, n: int, len: int) -> Result<Seq<Placement>, SectionCopyError>
    decreases n,
{
    if n <= 0 {
        Ok(Seq::empty())
    } else {
        match spec_placements(ranges, n - 1, len) {
            Err(e) => Err(e),
            Ok(prev) => {
                let r = ranges[n - 1];
                let copied_end = placed_end(prev, prev.len() as int);
                let offset = align_up(copied_end, r.alignment_exponent as nat);
                if r.start > usize::MAX || r.end > usize::MAX {
                    Err(SectionCopyError::RangeTooLarge)
                } else if r.end < r.start {
                    Err(SectionCopyError::InvalidRange)
                } else if offset + (r.end - r.start) > usize::MAX {
                    Err(SectionCopyError::SizeOverflow)
                } else if offset + (r.end - r.start) > len {
                    Err(SectionCopyError::ExceedsAllocation)
                } else {
                    Ok(
                        prev.push(
                            Placement {
                                output_offset: offset as usize,
                                start: r.start as usize,
                                end: r.end as usize,
                            },
                        ),
                    )
                }
            },
        }
    }
}

/// The placements of every range, provided they fill the output exactly.
pub open spec fn spec_copy_plan(ranges: Seq<LiveRange>, len: int) -> Result<Seq<Placement>, SectionCopyError> {
    match spec_placements(ranges, ranges.len() as int, len) {
        Err(e) => Err(e),
        Ok(p) => if placed_end(p, p.len() as int) != len {
            Err(SectionCopyError::SizeMismatch)
        } else {
            Ok(p)
        },
    }
}

/// Output byte `j` after the first `n` placements: the input byte it copies, zero past the
/// input's end or outside every placement.
pub open spec fn copied_byte(input: Seq<u8>, placements: Seq<Placement>, n: int, j: int) -> u8
    decreases n,
{
    if n <= 0 {
        0
    } else {
        let p = placements[n - 1];
        if p.output_offset <= j < p.output_offset + (p.end - p.start) {
            let source = p.start + (j - p.output_offset);
            if source < input.len() {
                input[source]
            } else {
                0
            }
        } else {
            copied_byte(input, placements, n - 1, j)
        }
    }
}

/// The compacted output of `input` by `placements`.
pub open spec fn copied_output(input: Seq<u8>, placements: Seq<Placement>, len: int) -> Seq<u8> {
    Seq::new(len as nat, |j: int| copied_byte(input, placements, placements.len() as int, j))
}

/// Whether the first `n` placements follow one another in the output.
pub open spec fn placements_ordered(placements: Seq<Placement>, n: int) -> bool {
    forall|k: int|
        0 <= k < n ==> {
            &&& (#[trigger] placements[k]).start <= placements[k].end
            &&& placed_end(placements, k) <= placements[k].output_offset
        }
}

/// Copies the live ranges of `input` into `out`, the output allocation of the section: each
/// range at the next offset its alignment allows after the previous one, with zero in the gaps
/// and past the end of the input data. The ranges must fill `out` exactly; otherwise nothing is
/// written.
pub fn copy_live_subsections(input: &[u8], ranges: &[LiveRange], out: &mut [u8]) -> (r: Result<
    (),
    SectionCopyError,
>)
    requires
        forall|i: int|
            0 <= i < ranges@.len() ==> (#[trigger] ranges@[i]).alignment_exponent < usize::BITS
                && pow2(ranges@[i].alignment_exponent as nat) + old(out)@.len() <= usize::MAX,
    ensures
        match spec_copy_plan(ranges@, old(out)@.len() as int) {
            Err(e) => r == Err::<(), SectionCopyError>(e) && final(out)@ == old(out)@,
            Ok(p) => r is Ok && final(out)@ == copied_output(input@, p, old(out)@.len() as int),
        },
{
    let len = out.len();
    let mut placements: Vec<Placement> = Vec::new();
    let mut copied_end: usize = 0;
    let mut i: usize = 0;
    while i < ranges.len()
        invariant
            0 <= i <= ranges@.len(),
            len == out@.len(),
            forall|k: int|
                0 <= k < ranges@.len() ==> (#[trigger] ranges@[k]).alignment_exponent < usize::BITS
                    && pow2(ranges@[k].alignment_exponent as nat) + len <= usize::MAX,
            spec_placements(ranges@, i as int, len as int) == Ok::<Seq<Placement>, SectionCopyError>(
                placements@,
            ),
            copied_end == placed_end(placements@, placements@.len() as int),
            copied_end <= len,
            placements@.len() == i,
            placements_ordered(placements@, i as int),
        decreases ranges@.len() - i,
    {
        let r = ranges[i];
        let e = r.alignment_exponent;
        proof {
            vstd::bits::lemma_usize_pow2_no_overflow(e as nat);
            vstd::bits::lemma_usize_shl_is_mul(1, e as usize);
            vstd::arithmetic::power2::lemma_pow2_pos(e as nat);
        }
        let a = 1usize << (e as usize);
        let rem = copied_end % a;
        let offset = if rem == 0 {
            copied_end
        } else {
            copied_end + (a - rem)
        };
        assert(offset == align_up(copied_end as int, e as nat));
        if r.start > usize::MAX as u64 || r.end > usize::MAX as u64 {
            proof {
                lemma_placements_error_stays(ranges@, i + 1, ranges@.len() as int, len as int);
            }
            return Err(SectionCopyError::RangeTooLarge);
        }
        if r.end < r.start {
            proof {
                lemma_placements_error_stays(ranges@, i + 1, ranges@.len() as int, len as int);
            }
            return Err(SectionCopyError::InvalidRange);
        }
        let start = r.start as usize;
        let end = r.end as usize;
        let span = end - start;
        if offset > usize::MAX - span {
            proof {
                lemma_placements_error_stays(ranges@, i + 1, ranges@.len() as int, len as int);
            }
            return Err(SectionCopyError::SizeOverflow);
        }
        if offset + span > len {
            proof {
                lemma_placements_error_stays(ranges@, i + 1, ranges@.len() as int, len as int);
            }
            return Err(SectionCopyError::ExceedsAllocation);
        }
        let ghost before = placements@;
        placements.push(Placement { output_offset: offset, start, end });
        proof {
            assert(placed_end(before, i as int) == copied_end);
            assert forall|k: int| 0 <= k < i + 1 implies {
                &&& (#[trigger] placements@[k]).start <= placements@[k].end
                &&& placed_end(placements@, k) <= placements@[k].output_offset
            } by {
                if k < i {
                    assert(placements@[k] == before[k]);
                    assert(placed_end(placements@, k) == placed_end(before, k));
                }
            }
        }
        copied_end = offset + span;
        i = i + 1;
    }
    if copied_end != len {
        return Err(SectionCopyError::SizeMismatch);
    }
    let ghost plan = placements@;
    let ghost original = out@;
    let mut written: usize = 0;
    let mut k: usize = 0;
    while k < placements.len()
        invariant
            0 <= k <= plan.len(),
            plan == placements@,
            len == out@.len(),
            placements_ordered(plan, plan.len() as int),
            placed_end(plan, plan.len() as int) == len,
            written == placed_end(plan, k as int),
            written <= len,
            forall|j: int| 0 <= j < written ==> out@[j] == copied_byte(input@, plan, k as int, j),
        decreases plan.len() - k,
    {
        let p = placements[k];
        proof {
            lemma_placed_end_grows(plan, k + 1, plan.len() as int);
            assert(plan[k as int] == p);
            assert(p.start <= p.end && placed_end(plan, k as int) <= p.output_offset);
        }
        let out_end = p.output_offset + (p.end - p.start);
        let ghost previous = out@;
        let mut j: usize = written;
        while j < p.output_offset
            invariant
                written <= j <= p.output_offset <= out_end <= len,
                len == out@.len(),
                previous.len() == len,
                forall|x: int| 0 <= x < written ==> out@[x] == previous[x],
                forall|x: int| written <= x < j ==> out@[x] == 0,
            decreases p.output_offset - j,
        {
            out[j] = 0;
            j = j + 1;
        }
        while j < out_end
            invariant
                written <= p.output_offset <= j <= out_end <= len,
                out_end == p.output_offset + (p.end - p.start),
                len == out@.len(),
                previous.len() == len,
                forall|x: int| 0 <= x < written ==> out@[x] == previous[x],
                forall|x: int| written <= x < p.output_offset ==> out@[x] == 0,
                forall|x: int|
                    p.output_offset <= x < j ==> out@[x] == {
                        let source = p.start + (x - p.output_offset);
                        if source < input@.len() {
                            input@[source]
                        } else {
                            0u8
                        }
                    },
            decreases out_end - j,
        {
            let source = p.start + (j - p.output_offset);
            out[j] = if source < input.len() {
                input[source]
            } else {
                0
            };
            j = j + 1;
        }
        proof {
            assert forall|x: int| 0 <= x < out_end implies out@[x] == copied_byte(input@, plan, k + 1, x) by {
                assert(plan[(k + 1) - 1] == p);
                if x < written {
                    assert(out@[x] == previous[x]);
                    assert(previous[x] == copied_byte(input@, plan, k as int, x));
                    assert(copied_byte(input@, plan, k + 1, x) == copied_byte(input@, plan, k as int, x));
                } else if x < p.output_offset {
                    lemma_copied_byte_outside(input@, plan, k as int, x);
                    assert(copied_byte(input@, plan, k + 1, x) == copied_byte(input@, plan, k as int, x));
                } else {
                    assert(p.output_offset <= x < p.output_offset + (p.end - p.start));
                }
            }
        }
        written = out_end;
        k = k + 1;
    }
    assert(out@ =~= copied_output(input@, plan, len as int));
    Ok(())
}

/// Once some range cannot be placed, the whole plan fails for it.
proof fn lemma_placements_error_stays(ranges: Seq<LiveRange>, k: int, n: int, len: int)
    requires
        0 <= k <= n,
        spec_placements(ranges, k, len) is Err,
    ensures
        spec_placements(ranges, n, len) == spec_placements(ranges, k, len),
    decreases n - k,
{
    if n > k {
        lemma_placements_error_stays(ranges, k, n - 1, len);
    }
}

/// Placements only move forward in the output.
proof fn lemma_placed_end_grows(placements: Seq<Placement>, k: int, n: int)
    requires
        0 <= k <= n <= placements.len(),
        placements_ordered(placements, placements.len() as int),
    ensures
        placed_end(placements, k) <= placed_end(placements, n),
    decreases n - k,
{
    if n > k {
        lemma_placed_end_grows(placements, k, n - 1);
        assert(placements[n - 1].start <= placements[n - 1].end);
        assert(placed_end(placements, n - 1) <= placements[n - 1].output_offset);
    }
}

/// Past the end of the first `k` placements, they copy nothing: the byte is zero.
proof fn lemma_copied_byte_outside(input: Seq<u8>, placements: Seq<Placement>, k: int, j: int)
    requires
        0 <= k <= placements.len(),
        placements_ordered(placements, placements.len() as int),
        placed_end(placements, k) <= j,
    ensures
        copied_byte(input, placements, k, j) == 0,
    decreases k,
{
    if k > 0 {
        lemma_placed_end_grows(placements, k - 1, k);
        lemma_copied_byte_outside(input, placements, k - 1, j);
    }
}

} // verus!
