//! Assembling the final `__TEXT,__unwind_info` from the compact-unwind rows of the inputs: the
//! rows are completed from their FDEs' `zPLR` augmentations, ordered by function address, given
//! their final FDE offsets, checked for overlap, and serialized with their personality table.
use vstd::prelude::*;
use std::collections::BTreeMap;
use crate::bytes::{copy_zero_padded, zeros};
use crate::compact_unwind::{
    rewrite_arm64_dwarf_fde_offsets,
    rewritten_entry,
    serialize_compact_unwind_info,
    spec_unwind_info,
    unwind_info_fits,
    CompactUnwindEntry,
    CompactUnwindError,
    FinalEhFrameFdeOffsets,
};
use crate::sorting::{sort_by_key_stable, sorted_by_key, SortKey};

verus! {

broadcast use vstd::std_specs::btree::group_btree_axioms;

/// The most personality functions a compact-unwind table can name.
pub const COMPACT_UNWIND_MAX_PERSONALITIES: usize = 3;

impl SortKey for CompactUnwindEntry {
    open spec fn spec_sort_key(&self) -> u64 {
        self.function_address
    }

    fn sort_key(&self) -> (r: u64) {
        self.function_address
    }
}

/// Why the final unwind metadata could not be assembled.
#[derive(Debug, Clone, Copy, PartialEq, Eq)]
pub enum UnwindInfoError {
    /// The table itself could not be built.
    Table(CompactUnwindError),
    /// Two FDEs of one function carry different personality or LSDA targets.
    ConflictingAugmentation,
    /// A function's range runs past the end of the address space.
    FunctionRangeOverflow,
    /// The serialized table does not fit the allocated output.
    OutputTooSmall,
}

/// The resolved targets of one FDE whose CIE is `zPLR`: its function, personality and LSDA.
#[derive(Debug, Clone, Copy, PartialEq, Eq)]
pub struct ResolvedEhFrameAugmentation {
    pub function: u64,
    pub personality: u64,
    pub lsda: u64,
}

// ---------------------------------------------------------------------------------------------
// Completing rows from FDE augmentations
// ---------------------------------------------------------------------------------------------

/// The personality and LSDA of each function named by the first `n` augmentations; two
/// augmentations of one function must agree.
pub open spec fn spec_augmentation_targets(augmentations: Seq<ResolvedEhFrameAugmentation>, n: int) -> Result<
    Map<u64, (u64, u64)>,
    UnwindInfoError,
>
    decreases n,
{
    if n <= 0 {
        Ok(Map::empty())
    } else {
        match spec_augmentation_targets(augmentations, n - 1) {
            Err(e) => Err(e),
            Ok(targets) => {
                let a = augmentations[n - 1];
                if targets.contains_key(a.function) && targets[a.function] != (
                    a.personality,
                    a.lsda,
                ) {
                    Err(UnwindInfoError::ConflictingAugmentation)
                } else {
                    Ok(targets.insert(a.function, (a.personality, a.lsda)))
                }
            },
        }
    }
}

/// A row completed from its function's augmentation: a missing personality or LSDA is taken
/// from it; what the row already names is kept.
pub open spec fn merged_entry(e: CompactUnwindEntry, targets: Map<u64, (u64, u64)>) -> CompactUnwindEntry {
    if !targets.contains_key(e.function_address) {
        e
    } else {
        let (personality, lsda) = targets[e.function_address];
        CompactUnwindEntry {
            personality_address: if e.personality_address is None {
                Some(personality)
            } else {
                e.personality_address
            },
            lsda_address: if e.lsda_address is None {
                Some(lsda)
            } else {
                e.lsda_address
            },
            ..e
        }
    }
}

/// Completes the rows of one object from the `zPLR` augmentations of its live FDEs. Rows of a
/// producer that leaves the compact-unwind personality and LSDA words empty get them from the
/// FDE of the same function. With no rows nothing is checked.
pub fn merge_eh_frame_augmentations(
    entries: &mut Vec<CompactUnwindEntry>,
    augmentations: &[ResolvedEhFrameAugmentation],
) -> (r: Result<(), UnwindInfoError>)
    ensures
        old(entries)@.len() == 0 ==> r is Ok && final(entries)@ == old(entries)@,
        old(entries)@.len() > 0 ==> match spec_augmentation_targets(
            augmentations@,
            augmentations@.len() as int,
        ) {
            Err(e) => r == Err::<(), UnwindInfoError>(e) && final(entries)@ == old(entries)@,
            Ok(targets) => r is Ok && final(entries)@.len() == old(entries)@.len() && forall|i: int|
                0 <= i < old(entries)@.len() ==> #[trigger] final(entries)@[i] == merged_entry(
                    old(entries)@[i],
                    targets,
                ),
        },
{
    if entries.len() == 0 {
        return Ok(());
    }
    let mut targets: BTreeMap<u64, (u64, u64)> = BTreeMap::new();
    let mut i: usize = 0;
    while i < augmentations.len()
        invariant
            0 <= i <= augmentations@.len(),
            entries@ == old(entries)@,
            entries@.len() > 0,
            spec_augmentation_targets(augmentations@, i as int) == Ok::<
                Map<u64, (u64, u64)>,
                UnwindInfoError,
            >(targets@),
        decreases augmentations@.len() - i,
    {
        let a = augmentations[i];
        match targets.get(&a.function) {
            Some(previous) => {
                let (personality, lsda) = *previous;
                if personality != a.personality || lsda != a.lsda {
                    proof {
                        lemma_augmentation_targets_error(
                            augmentations@,
                            i + 1,
                            augmentations@.len() as int,
                        );
                    }
                    return Err(UnwindInfoError::ConflictingAugmentation);
                }
            },
            None => {},
        }
        targets.insert(a.function, (a.personality, a.lsda));
        i = i + 1;
    }
    let ghost original = entries@;
    let mut k: usize = 0;
    while k < entries.len()
        invariant
            0 <= k <= entries@.len(),
            entries@.len() == original.len(),
            original == old(entries)@,
            spec_augmentation_targets(augmentations@, augmentations@.len() as int) == Ok::<
                Map<u64, (u64, u64)>,
                UnwindInfoError,
            >(targets@),
            forall|j: int| 0 <= j < k ==> #[trigger] entries@[j] == merged_entry(original[j], targets@),
            forall|j: int| k <= j < entries@.len() ==> #[trigger] entries@[j] == original[j],
        decreases entries@.len() - k,
    {
        let mut entry = entries[k];
        match targets.get(&entry.function_address) {
            None => {},
            Some(target) => {
                let (personality, lsda) = *target;
                if entry.personality_address.is_none() {
                    entry.personality_address = Some(personality);
                }
                if entry.lsda_address.is_none() {
                    entry.lsda_address = Some(lsda);
                }
            },
        }
        entries.set(k, entry);
        k = k + 1;
    }
    Ok(())
}

/// Once collecting the first `k` augmentations fails, collecting more fails the same way.
proof fn lemma_augmentation_targets_error(augmentations: Seq<ResolvedEhFrameAugmentation>, k: int, n: int)
    requires
        0 <= k <= n,
        spec_augmentation_targets(augmentations, k) is Err,
    ensures
        spec_augmentation_targets(augmentations, n) == spec_augmentation_targets(augmentations, k),
    decreases n - k,
{
    if n > k {
        lemma_augmentation_targets_error(augmentations, k, n - 1);
    }
}

// ---------------------------------------------------------------------------------------------
// Rows in address order
// ---------------------------------------------------------------------------------------------

/// `sorted` is `input` ordered by function address, rows with equal addresses keeping their
/// input order; `perm` gives each sorted row's input position.
pub open spec fn is_address_order(
    input: Seq<CompactUnwindEntry>,
    sorted: Seq<CompactUnwindEntry>,
    perm: Seq<int>,
) -> bool {
    &&& sorted.len() == input.len()
    &&& perm.len() == input.len()
    &&& forall|k: int| 0 <= k < sorted.len() ==> 0 <= #[trigger] perm[k] < input.len() && sorted[k] == input[perm[k]]
    &&& forall|a: int, b: int| 0 <= a < b < sorted.len() ==> #[trigger] perm[a] != #[trigger] perm[b]
    &&& sorted_by_key(sorted)
    &&& forall|a: int, b: int|
        0 <= a < b < sorted.len() && sorted[a].function_address == sorted[b].function_address
            ==> #[trigger] perm[a] < #[trigger] perm[b]
}

/// The first row whose DWARF FDE offset cannot be rewritten.
pub open spec fn is_first_rewrite_failure(
    entries: Seq<CompactUnwindEntry>,
    fde_offsets: Map<(u32, usize, u64), u32>,
    k: int,
) -> bool {
    &&& 0 <= k < entries.len()
    &&& rewritten_entry(entries[k], fde_offsets) is Err
    &&& forall|j: int| 0 <= j < k ==> #[trigger] rewritten_entry(entries[j], fde_offsets) is Ok
}

/// The rows with their final FDE offsets, or the error of the first row that has none.
pub open spec fn spec_rewritten_rows(
    entries: Seq<CompactUnwindEntry>,
    fde_offsets: Map<(u32, usize, u64), u32>,
) -> Result<Seq<CompactUnwindEntry>, CompactUnwindError> {
    if forall|i: int| 0 <= i < entries.len() ==> #[trigger] rewritten_entry(entries[i], fde_offsets) is Ok {
        Ok(Seq::new(entries.len(), |i: int| rewritten_entry(entries[i], fde_offsets)->Ok_0))
    } else {
        let k = choose|k: int| is_first_rewrite_failure(entries, fde_offsets, k);
        Err(rewritten_entry(entries[k], fde_offsets)->Err_0)
    }
}

/// Why the pair of consecutive rows `a`, `b` is rejected, if it is: `a`'s range must end
/// inside the address space and no later than `b` begins.
pub open spec fn range_error(a: CompactUnwindEntry, b: CompactUnwindEntry) -> Option<UnwindInfoError> {
    if a.function_address + a.function_length > u64::MAX {
        Some(UnwindInfoError::FunctionRangeOverflow)
    } else if a.function_address + a.function_length > b.function_address {
        Some(UnwindInfoError::Table(CompactUnwindError::OverlappingFunctions))
    } else {
        None
    }
}

/// Checks the consecutive pairs among the first `n` rows, in order.
pub open spec fn spec_check_ranges(rows: Seq<CompactUnwindEntry>, n: int) -> Result<(), UnwindInfoError>
    decreases n,
{
    if n <= 1 {
        Ok(())
    } else {
        match spec_check_ranges(rows, n - 1) {
            Err(e) => Err(e),
            Ok(()) => match range_error(rows[n - 2], rows[n - 1]) {
                Some(e) => Err(e),
                None => Ok(()),
            },
        }
    }
}

/// The distinct personalities of the first `n` rows in order of first use; at most three.
pub open spec fn spec_personalities(rows: Seq<CompactUnwindEntry>, n: int) -> Result<Seq<u64>, UnwindInfoError>
    decreases n,
{
    if n <= 0 {
        Ok(Seq::empty())
    } else {
        match spec_personalities(rows, n - 1) {
            Err(e) => Err(e),
            Ok(ps) => match rows[n - 1].personality_address {
                None => Ok(ps),
                Some(p) => if ps.contains(p) {
                    Ok(ps)
                } else if ps.len() >= COMPACT_UNWIND_MAX_PERSONALITIES {
                    Err(UnwindInfoError::Table(CompactUnwindError::TooManyPersonalities))
                } else {
                    Ok(ps.push(p))
                },
            },
        }
    }
}

/// The rows of the table and its personalities, from rows in address order: FDE offsets
/// rewritten, ranges checked pairwise and the last range kept inside the address space, and the
/// personality table collected.
pub open spec fn spec_unwind_table(
    sorted: Seq<CompactUnwindEntry>,
    fde_offsets: Map<(u32, usize, u64), u32>,
) -> Result<(Seq<CompactUnwindEntry>, Seq<u64>), UnwindInfoError> {
    match spec_rewritten_rows(sorted, fde_offsets) {
        Err(e) => Err(UnwindInfoError::Table(e)),
        Ok(rows) => match spec_check_ranges(rows, rows.len() as int) {
            Err(e) => Err(e),
            Ok(()) => if rows.len() > 0 && rows.last().function_address
                + rows.last().function_length > u64::MAX {
                Err(UnwindInfoError::FunctionRangeOverflow)
            } else {
                match spec_personalities(rows, rows.len() as int) {
                    Err(e) => Err(e),
                    Ok(ps) => Ok((rows, ps)),
                }
            },
        },
    }
}

/// What writing the table of `sorted` into an output of `old_out` does: the result `r` and the
/// output `new_out` afterwards. A table that cannot be encoded fails with one of the encoder's
/// errors; a failure leaves the output as it was.
pub open spec fn unwind_outcome(
    sorted: Seq<CompactUnwindEntry>,
    fde_offsets: Map<(u32, usize, u64), u32>,
    image_base: u64,
    old_out: Seq<u8>,
    r: Result<(), UnwindInfoError>,
    new_out: Seq<u8>,
) -> bool {
    &&& new_out.len() == old_out.len()
    &&& r is Err ==> new_out == old_out
    &&& old_out.len() == 0 ==> r is Ok && new_out == old_out
    &&& old_out.len() > 0 ==> match spec_unwind_table(sorted, fde_offsets) {
        Err(e) => r == Err::<(), UnwindInfoError>(e),
        Ok((rows, ps)) => if !unwind_info_fits(rows, ps, image_base) {
            r is Err
        } else if spec_unwind_info(rows, ps, image_base).len() > old_out.len() {
            r == Err::<(), UnwindInfoError>(UnwindInfoError::OutputTooSmall)
        } else {
            r is Ok && new_out == spec_unwind_info(rows, ps, image_base) + zeros(
                old_out.len() - spec_unwind_info(rows, ps, image_base).len(),
            )
        },
    }
}

/// The personality table names every row's personality, once each, and never more than
/// three.
pub proof fn lemma_personality_table(rows: Seq<CompactUnwindEntry>, n: int)
    requires
        0 <= n <= rows.len(),
        spec_personalities(rows, n) is Ok,
    ensures
        ({
            let ps = spec_personalities(rows, n)->Ok_0;
            &&& ps.len() <= COMPACT_UNWIND_MAX_PERSONALITIES
            &&& ps.no_duplicates()
            &&& forall|i: int|
                0 <= i < n && (#[trigger] rows[i]).personality_address is Some ==> ps.contains(
                    rows[i].personality_address->0,
                )
        }),
    decreases n,
{
    if n > 0 {
        lemma_personality_table(rows, n - 1);
        let prev = spec_personalities(rows, n - 1)->Ok_0;
        let ps = spec_personalities(rows, n)->Ok_0;
        assert forall|i: int|
            0 <= i < n && (#[trigger] rows[i]).personality_address is Some implies ps.contains(
                rows[i].personality_address->0,
            ) by {
            if i < n - 1 {
                let j = choose|j: int| 0 <= j < prev.len() && prev[j] == rows[i].personality_address->0;
                if ps != prev {
                    assert(ps[j] == prev[j]);
                }
            } else if ps != prev {
                assert(ps[prev.len() as int] == rows[i].personality_address->0);
            }
        }
    }
}

// ---------------------------------------------------------------------------------------------
// Checks
// ---------------------------------------------------------------------------------------------

/// Checks that consecutive rows do not overlap.
fn check_function_ranges(rows: &Vec<CompactUnwindEntry>) -> (r: Result<(), UnwindInfoError>)
    ensures
        r == spec_check_ranges(rows@, rows@.len() as int),
{
    let n = rows.len();
    if n <= 1 {
        return Ok(());
    }
    let mut i: usize = 1;
    while i < n
        invariant
            n == rows@.len(),
            1 <= i <= n,
            spec_check_ranges(rows@, i as int) == Ok::<(), UnwindInfoError>(()),
        decreases n - i,
    {
        let a = rows[i - 1];
        let b = rows[i];
        let end = a.function_address.checked_add(a.function_length as u64);
        match end {
            None => {
                proof {
                    lemma_check_ranges_error(rows@, i + 1, n as int);
                }
                return Err(UnwindInfoError::FunctionRangeOverflow);
            },
            Some(end) => {
                if end > b.function_address {
                    proof {
                        lemma_check_ranges_error(rows@, i + 1, n as int);
                    }
                    return Err(UnwindInfoError::Table(CompactUnwindError::OverlappingFunctions));
                }
            },
        }
        i = i + 1;
    }
    Ok(())
}

/// Once the pairs among the first `k` rows fail, the pairs among more rows fail the same way.
proof fn lemma_check_ranges_error(rows: Seq<CompactUnwindEntry>, k: int, n: int)
    requires
        0 <= k <= n,
        spec_check_ranges(rows, k) is Err,
    ensures
        spec_check_ranges(rows, n) == spec_check_ranges(rows, k),
    decreases n - k,
{
    if n > k {
        lemma_check_ranges_error(rows, k, n - 1);
    }
}

/// Once collecting the personalities of the first `k` rows fails, collecting more fails the
/// same way.
proof fn lemma_personalities_error(rows: Seq<CompactUnwindEntry>, k: int, n: int)
    requires
        0 <= k <= n,
        spec_personalities(rows, k) is Err,
    ensures
        spec_personalities(rows, n) == spec_personalities(rows, k),
    decreases n - k,
{
    if n > k {
        lemma_personalities_error(rows, k, n - 1);
    }
}

/// The personality table of the rows.
fn collect_personalities(rows: &Vec<CompactUnwindEntry>) -> (r: Result<Vec<u64>, UnwindInfoError>)
    ensures
        match spec_personalities(rows@, rows@.len() as int) {
            Ok(ps) => r matches Ok(v) && v@ == ps,
            Err(e) => r == Err::<Vec<u64>, UnwindInfoError>(e),
        },
{
    let mut personalities: Vec<u64> = Vec::new();
    let mut i: usize = 0;
    while i < rows.len()
        invariant
            0 <= i <= rows@.len(),
            spec_personalities(rows@, i as int) == Ok::<Seq<u64>, UnwindInfoError>(personalities@),
        decreases rows@.len() - i,
    {
        match rows[i].personality_address {
            None => {},
            Some(p) => {
                let mut found = false;
                let mut j: usize = 0;
                while j < personalities.len()
                    invariant
                        0 <= j <= personalities@.len(),
                        found == exists|t: int| 0 <= t < j && personalities@[t] == p,
                    decreases personalities@.len() - j,
                {
                    if personalities[j] == p {
                        found = true;
                    }
                    j = j + 1;
                }
                assert(found == personalities@.contains(p));
                if !found {
                    if personalities.len() >= COMPACT_UNWIND_MAX_PERSONALITIES {
                        proof {
                            lemma_personalities_error(rows@, i + 1, rows@.len() as int);
                        }
                        return Err(UnwindInfoError::Table(CompactUnwindError::TooManyPersonalities));
                    }
                    personalities.push(p);
                }
            },
        }
        i = i + 1;
    }
    Ok(personalities)
}

// ---------------------------------------------------------------------------------------------
// The table
// ---------------------------------------------------------------------------------------------

/// Writes the `__unwind_info` of rows already in address order into `output`, zeroing the rest
/// of it. An empty output means the table was not allocated and nothing is written.
pub fn write_sorted_compact_unwind_info(
    mut rows: Vec<CompactUnwindEntry>,
    fde_offsets: &FinalEhFrameFdeOffsets,
    image_base: u64,
    output: &mut [u8],
) -> (r: Result<(), UnwindInfoError>)
    ensures
        unwind_outcome(rows@, fde_offsets@, image_base, old(output)@, r, final(output)@),
{
    if output.len() == 0 {
        return Ok(());
    }
    let ghost sorted = rows@;
    match rewrite_arm64_dwarf_fde_offsets(&mut rows, fde_offsets) {
        Err(e) => {
            proof {
                let k0 = choose|k: int|
                    0 <= k < sorted.len() && rewritten_entry(sorted[k], fde_offsets@) == Err::<
                        CompactUnwindEntry,
                        CompactUnwindError,
                    >(e) && (forall|i: int|
                        0 <= i < k ==> Ok::<CompactUnwindEntry, CompactUnwindError>(
                            #[trigger] rows@[i],
                        ) == rewritten_entry(sorted[i], fde_offsets@));
                assert forall|j: int| 0 <= j < k0 implies #[trigger] rewritten_entry(
                    sorted[j],
                    fde_offsets@,
                ) is Ok by {
                    assert(Ok::<CompactUnwindEntry, CompactUnwindError>(rows@[j]) == rewritten_entry(
                        sorted[j],
                        fde_offsets@,
                    ));
                }
                assert(is_first_rewrite_failure(sorted, fde_offsets@, k0));
                let k = choose|k: int| is_first_rewrite_failure(sorted, fde_offsets@, k);
                if k < k0 {
                    assert(rewritten_entry(sorted[k], fde_offsets@) is Ok);
                } else if k > k0 {
                    assert(rewritten_entry(sorted[k0], fde_offsets@) is Ok);
                }
                assert(!(forall|i: int| 0 <= i < sorted.len() ==> #[trigger] rewritten_entry(sorted[i], fde_offsets@) is Ok));
            }
            return Err(UnwindInfoError::Table(e));
        },
        Ok(()) => {},
    }
    proof {
        assert(rows@ =~= Seq::new(sorted.len(), |i: int| rewritten_entry(sorted[i], fde_offsets@)->Ok_0));
    }
    match check_function_ranges(&rows) {
        Err(e) => {
            return Err(e);
        },
        Ok(()) => {},
    }
    let n = rows.len();
    if n > 0 {
        let last = rows[n - 1];
        if last.function_address.checked_add(last.function_length as u64).is_none() {
            return Err(UnwindInfoError::FunctionRangeOverflow);
        }
    }
    let personalities = match collect_personalities(&rows) {
        Err(e) => {
            return Err(e);
        },
        Ok(personalities) => personalities,
    };
    let serialized = match serialize_compact_unwind_info(
        rows.as_slice(),
        personalities.as_slice(),
        image_base,
    ) {
        Err(e) => {
            return Err(UnwindInfoError::Table(e));
        },
        Ok(serialized) => serialized,
    };
    if serialized.len() > output.len() {
        return Err(UnwindInfoError::OutputTooSmall);
    }
    copy_zero_padded(output, serialized.as_slice());
    Ok(())
}

/// Writes the `__unwind_info` of the rows of all inputs into `output`: the rows are ordered by
/// function address (rows with equal addresses keep their order) and then written as
/// [`write_sorted_compact_unwind_info`] does.
pub fn write_compact_unwind_info(
    entries: &Vec<CompactUnwindEntry>,
    fde_offsets: &FinalEhFrameFdeOffsets,
    image_base: u64,
    output: &mut [u8],
) -> (r: Result<(), UnwindInfoError>)
    ensures
        exists|sorted: Seq<CompactUnwindEntry>, perm: Seq<int>|
            is_address_order(entries@, sorted, perm) && unwind_outcome(
                sorted,
                fde_offsets@,
                image_base,
                old(output)@,
                r,
                final(output)@,
            ),
{
    let (sorted, Ghost(perm), Ghost(inv)) = sort_by_key_stable(entries);
    assert forall|a: int, b: int| 0 <= a < b < sorted@.len() implies #[trigger] perm[a]
        != #[trigger] perm[b] by {
        if perm[a] == perm[b] {
            assert(inv[perm[a]] == a);
            assert(inv[perm[b]] == b);
        }
    }
    assert(is_address_order(entries@, sorted@, perm));
    let ghost sorted_view = sorted@;
    let r = write_sorted_compact_unwind_info(sorted, fde_offsets, image_base, output);
    assert(is_address_order(entries@, sorted_view, perm));
    r
}

} // verus!
