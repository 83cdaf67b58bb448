//! Dead-strip atoms of an `MH_SUBSECTIONS_VIA_SYMBOLS` object: every symbol starts an atom of
//! its section, except where a relocation field would be split, and an atom runs to the next
//! boundary or the end of the section.
use vstd::prelude::*;
use std::ops::Range;
use crate::relocations::NormalizedRelocation;

verus! {

/// Why a section could not be cut into atoms.
#[derive(Debug, Clone, Copy, PartialEq, Eq)]
pub enum AtomError {
    /// A symbol lies past the end of its section.
    SymbolPastSection,
    /// A relocation's length field gives no valid width.
    InvalidRelocationWidth,
    /// A relocation's range overflows.
    RelocationRangeOverflow,
    /// A relocation extends past the end of its section.
    RelocationPastSection,
    /// A symbol lies before the first atom boundary.
    SymbolBeforeSection,
}

/// The values of `s` strictly increase.
pub open spec fn strictly_increasing(s: Seq<u64>) -> bool {
    forall|i: int, j: int| 0 <= i < j < s.len() ==> s[i] < s[j]
}

/// The first and one-past-last byte a relocation's storage covers.
pub open spec fn relocation_span(r: NormalizedRelocation) -> (int, int) {
    (r.info.r_address as int, r.info.r_address + pow2_width(r.info.r_length))
}

/// `2^length`, the width of a relocation's storage.
pub open spec fn pow2_width(length: u8) -> int {
    vstd::arithmetic::power2::pow2(length as nat) as int
}

/// Whether `b` lies strictly inside the storage of some relocation, so that an atom boundary
/// there would split the field.
pub open spec fn splits_a_relocation(relocations: Seq<NormalizedRelocation>, b: u64) -> bool {
    exists|k: int|
        0 <= k < relocations.len() && relocation_span(#[trigger] relocations[k]).0 < b
            < relocation_span(relocations[k]).1
}

/// Whether `b` is an atom boundary: the section start, or a symbol offset that splits no
/// relocation.
pub open spec fn is_atom_boundary(offsets: Seq<u64>, relocations: Seq<NormalizedRelocation>, b: u64) -> bool {
    b == 0 || (offsets.contains(b) && !splits_a_relocation(relocations, b))
}

/// Why relocation `k` of a section of `size` bytes is refused, if it is.
pub open spec fn relocation_error(r: NormalizedRelocation, size: u64) -> Option<AtomError> {
    if r.info.r_length >= 64 {
        Some(AtomError::InvalidRelocationWidth)
    } else if relocation_span(r).1 > u64::MAX {
        Some(AtomError::RelocationRangeOverflow)
    } else if relocation_span(r).1 > size {
        Some(AtomError::RelocationPastSection)
    } else {
        None
    }
}

/// The first refused relocation among the first `n`.
pub open spec fn first_relocation_error(relocations: Seq<NormalizedRelocation>, size: u64, n: int) -> Option<
    AtomError,
>
    decreases n,
{
    if n <= 0 {
        None
    } else {
        match first_relocation_error(relocations, size, n - 1) {
            Some(e) => Some(e),
            None => relocation_error(relocations[n - 1], size),
        }
    }
}

/// Whether boundary `b` survives a relocation covering `start..end`: only the section start may
/// lie strictly inside it.
pub open spec fn keeps_boundary(b: u64, start: u64, end: u64) -> bool {
    b == 0 || !(start < b && b < end)
}

/// Adds `x` to a strictly increasing vector of values.
fn insert_boundary(v: &mut Vec<u64>, x: u64)
    requires
        strictly_increasing(old(v)@),
    ensures
        strictly_increasing(final(v)@),
        forall|b: u64| final(v)@.contains(b) <==> (old(v)@.contains(b) || b == x),
{
    let mut i: usize = 0;
    while i < v.len() && v[i] < x
        invariant
            0 <= i <= v@.len(),
            v@ == old(v)@,
            forall|j: int| 0 <= j < i ==> v@[j] < x,
        decreases v@.len() - i,
    {
        i = i + 1;
    }
    if i < v.len() && v[i] == x {
        return;
    }
    v.insert(i, x);
    assert forall|b: u64| v@.contains(b) <==> (old(v)@.contains(b) || b == x) by {
        if v@.contains(b) {
            let j = choose|j: int| 0 <= j < v@.len() && #[trigger] v@[j] == b;
            if j < i {
                assert(old(v)@[j] == b);
            } else if j > i {
                assert(old(v)@[j - 1] == b);
            }
        }
        if old(v)@.contains(b) {
            let j = choose|j: int| 0 <= j < old(v)@.len() && #[trigger] old(v)@[j] == b;
            if j < i {
                assert(v@[j] == b);
            } else {
                assert(v@[j + 1] == b);
            }
        }
        if b == x {
            assert(v@[i as int] == x);
        }
    }
}

/// The width of a relocation's storage, `2^length`, when it is a valid shift.
fn relocation_width(length: u8) -> (r: Option<u64>)
    ensures
        length >= 64 ==> r is None,
        length < 64 ==> r == Some(pow2_width(length) as u64) && pow2_width(length) <= u64::MAX,
{
    if length >= 64 {
        return None;
    }
    let mut width: u64 = 1;
    let mut k: u8 = 0;
    proof {
        vstd::arithmetic::power2::lemma2_to64();
    }
    while k < length
        invariant
            0 <= k <= length < 64,
            width == vstd::arithmetic::power2::pow2(k as nat),
            width <= 0x8000_0000_0000_0000u64,
        decreases length - k,
    {
        proof {
            vstd::arithmetic::power2::lemma_pow2_unfold((k + 1) as nat);
            vstd::arithmetic::power2::lemma_pow2_strictly_increases(k as nat, 63);
            vstd::arithmetic::power2::lemma2_to64();
            vstd::arithmetic::power2::lemma2_to64_rest();
        }
        width = width * 2;
        k = k + 1;
        proof {
            if k < 64 {
                vstd::arithmetic::power2::lemma_pow2_pos(k as nat);
                if k < 63 {
                    vstd::arithmetic::power2::lemma_pow2_strictly_increases(k as nat, 63);
                }
            }
        }
    }
    Some(width)
}

/// The atom boundaries of a section of `section_size` bytes: its start and the offsets of the
/// symbols defined in it, without those that would split one of its relocations, in increasing
/// order.
pub fn section_atom_starts(
    section_size: u64,
    symbol_offsets: &[u64],
    relocations: &[NormalizedRelocation],
) -> (r: Result<Vec<u64>, AtomError>)
    ensures
        (exists|i: int| 0 <= i < symbol_offsets@.len() && symbol_offsets@[i] > section_size) ==> r
            == Err::<Vec<u64>, AtomError>(AtomError::SymbolPastSection),
        (forall|i: int| 0 <= i < symbol_offsets@.len() ==> symbol_offsets@[i] <= section_size)
            ==> match first_relocation_error(relocations@, section_size, relocations@.len() as int) {
            Some(e) => r == Err::<Vec<u64>, AtomError>(e),
            None => r matches Ok(starts) && strictly_increasing(starts@) && forall|b: u64|
                #[trigger] starts@.contains(b) <==> is_atom_boundary(symbol_offsets@, relocations@, b),
        },
{
    let mut starts: Vec<u64> = Vec::new();
    starts.push(0);
    assert(starts@ =~= seq![0u64]);
    assert(starts@[0] == 0);
    let mut i: usize = 0;
    while i < symbol_offsets.len()
        invariant
            0 <= i <= symbol_offsets@.len(),
            strictly_increasing(starts@),
            forall|j: int| 0 <= j < i ==> symbol_offsets@[j] <= section_size,
            forall|b: u64|
                starts@.contains(b) <==> (b == 0 || symbol_offsets@.take(i as int).contains(b)),
        decreases symbol_offsets@.len() - i,
    {
        let offset = symbol_offsets[i];
        if offset > section_size {
            return Err(AtomError::SymbolPastSection);
        }
        insert_boundary(&mut starts, offset);
        proof {
            assert forall|b: u64| starts@.contains(b) <==> (b == 0 || symbol_offsets@.take(i + 1).contains(b)) by {
                if symbol_offsets@.take(i as int).contains(b) {
                    let j = choose|j: int| 0 <= j < i && #[trigger] symbol_offsets@.take(i as int)[j] == b;
                    assert(symbol_offsets@.take(i + 1)[j] == b);
                }
                if symbol_offsets@.take(i + 1).contains(b) {
                    let j = choose|j: int| 0 <= j < i + 1 && #[trigger] symbol_offsets@.take(i + 1)[j] == b;
                    if j < i {
                        assert(symbol_offsets@.take(i as int)[j] == b);
                    }
                }
                if b == offset {
                    assert(symbol_offsets@.take(i + 1)[i as int] == b);
                }
            }
        }
        i = i + 1;
    }
    assert(symbol_offsets@.take(symbol_offsets@.len() as int) =~= symbol_offsets@);
    let mut k: usize = 0;
    while k < relocations.len()
        invariant
            0 <= k <= relocations@.len(),
            strictly_increasing(starts@),
            forall|j: int| 0 <= j < symbol_offsets@.len() ==> symbol_offsets@[j] <= section_size,
            first_relocation_error(relocations@, section_size, k as int) is None,
            forall|b: u64|
                starts@.contains(b) <==> (b == 0 || (symbol_offsets@.contains(b) && !exists|m: int|
                    0 <= m < k && relocation_span(#[trigger] relocations@[m]).0 < b
                        < relocation_span(relocations@[m]).1)),
        decreases relocations@.len() - k,
    {
        let relocation = relocations[k];
        let width = match relocation_width(relocation.info.r_length) {
            None => {
                proof {
                    lemma_first_relocation_error_stays(relocations@, section_size, k + 1, relocations@.len() as int);
                }
                return Err(AtomError::InvalidRelocationWidth);
            },
            Some(width) => width,
        };
        let start = relocation.info.r_address as u64;
        if start > u64::MAX - width {
            proof {
                lemma_first_relocation_error_stays(relocations@, section_size, k + 1, relocations@.len() as int);
            }
            return Err(AtomError::RelocationRangeOverflow);
        }
        let end = start + width;
        if end > section_size {
            proof {
                lemma_first_relocation_error_stays(relocations@, section_size, k + 1, relocations@.len() as int);
            }
            return Err(AtomError::RelocationPastSection);
        }
        let ghost before = starts@;
        let mut kept: Vec<u64> = Vec::new();
        let mut j: usize = 0;
        while j < starts.len()
            invariant
                0 <= j <= starts@.len(),
                starts@ == before,
                strictly_increasing(before),
                strictly_increasing(kept@),
                forall|t: int|
                    0 <= t < kept@.len() ==> exists|u: int|
                        0 <= u < j && #[trigger] kept@[t] == #[trigger] before[u],
                forall|t: int| 0 <= t < kept@.len() ==> keeps_boundary(#[trigger] kept@[t], start, end),
                forall|u: int|
                    0 <= u < j && keeps_boundary(#[trigger] before[u], start, end) ==> kept@.contains(
                        before[u],
                    ),
            decreases starts@.len() - j,
        {
            let b = starts[j];
            if b == 0 || !(b > start && b < end) {
                proof {
                    assert forall|t: int| 0 <= t < kept@.len() implies kept@[t] < b by {
                        let u = choose|u: int| 0 <= u < j && #[trigger] kept@[t] == #[trigger] before[u];
                        assert(before[u] < before[j as int]);
                    }
                }
                let ghost old_kept = kept@;
                kept.push(b);
                proof {
                    assert forall|u: int|
                        0 <= u < j + 1 && keeps_boundary(#[trigger] before[u], start, end) implies kept@.contains(
                        before[u],
                    ) by {
                        if u < j {
                            let t = choose|t: int| 0 <= t < old_kept.len() && old_kept[t] == before[u];
                            assert(kept@[t] == before[u]);
                        } else {
                            assert(kept@[old_kept.len() as int] == before[u]);
                        }
                    }
                    assert forall|t: int| 0 <= t < kept@.len() implies exists|u: int|
                        0 <= u < j + 1 && #[trigger] kept@[t] == #[trigger] before[u] by {
                        if t < old_kept.len() {
                            assert(kept@[t] == old_kept[t]);
                        } else {
                            assert(kept@[t] == before[j as int]);
                        }
                    }
                }
            }
            j = j + 1;
        }
        proof {
            assert forall|c: u64| kept@.contains(c) <==> (before.contains(c) && keeps_boundary(c, start, end)) by {
                if kept@.contains(c) {
                    let t = choose|t: int| 0 <= t < kept@.len() && kept@[t] == c;
                    let u = choose|u: int| 0 <= u < j && #[trigger] kept@[t] == #[trigger] before[u];
                    assert(before.contains(c));
                }
                if before.contains(c) && keeps_boundary(c, start, end) {
                    let u = choose|u: int| 0 <= u < before.len() && before[u] == c;
                    assert(keeps_boundary(before[u], start, end));
                }
            }
        }
        starts = kept;
        proof {
            assert(relocation_span(relocations@[k as int]).0 == start);
            assert(relocation_span(relocations@[k as int]).1 == end);
            assert forall|b: u64| starts@.contains(b) <==> (b == 0 || (symbol_offsets@.contains(b)
                && !exists|m: int|
                0 <= m < k + 1 && relocation_span(#[trigger] relocations@[m]).0 < b
                    < relocation_span(relocations@[m]).1)) by {
                let inside_earlier = exists|m: int|
                    0 <= m < k && relocation_span(#[trigger] relocations@[m]).0 < b
                        < relocation_span(relocations@[m]).1;
                let inside_any = exists|m: int|
                    0 <= m < k + 1 && relocation_span(#[trigger] relocations@[m]).0 < b
                        < relocation_span(relocations@[m]).1;
                assert(before.contains(b) <==> (b == 0 || (symbol_offsets@.contains(b) && !inside_earlier)));
                assert(starts@.contains(b) <==> (before.contains(b) && keeps_boundary(b, start, end)));
                if inside_any {
                    let m = choose|m: int|
                        0 <= m < k + 1 && relocation_span(#[trigger] relocations@[m]).0 < b
                            < relocation_span(relocations@[m]).1;
                    if m < k {
                        assert(inside_earlier);
                    } else {
                        assert(!keeps_boundary(b, start, end) || b == 0);
                    }
                }
                if inside_earlier {
                    let m = choose|m: int|
                        0 <= m < k && relocation_span(#[trigger] relocations@[m]).0 < b
                            < relocation_span(relocations@[m]).1;
                    assert(inside_any);
                }
                if !keeps_boundary(b, start, end) {
                    assert(relocation_span(relocations@[k as int]).0 < b < relocation_span(
                        relocations@[k as int],
                    ).1);
                    assert(inside_any);
                }
            }
        }
        k = k + 1;
    }
    Ok(starts)
}

/// Once the first `k` relocations hold a refused one, the first `n` hold the same one.
proof fn lemma_first_relocation_error_stays(relocations: Seq<NormalizedRelocation>, size: u64, k: int, n: int)
    requires
        0 <= k <= n,
        first_relocation_error(relocations, size, k) is Some,
    ensures
        first_relocation_error(relocations, size, n) == first_relocation_error(relocations, size, k),
    decreases n - k,
{
    if n > k {
        lemma_first_relocation_error_stays(relocations, size, k, n - 1);
    }
}

/// The number of the first `n` boundaries that lie at or before `start`.
pub open spec fn boundaries_through(starts: Seq<u64>, start: u64, n: int) -> int
    decreases n,
{
    if n <= 0 {
        0
    } else {
        boundaries_through(starts, start, n - 1) + if starts[n - 1] <= start {
            1int
        } else {
            0
        }
    }
}

/// Counting boundaries at or before `start`: all of the first `p`, none of those from `p` to `n`.
proof fn lemma_boundaries_through(starts: Seq<u64>, start: u64, p: int, n: int)
    requires
        0 <= p <= n <= starts.len(),
        forall|i: int| 0 <= i < p ==> starts[i] <= start,
        forall|i: int| p <= i < n ==> starts[i] > start,
    ensures
        boundaries_through(starts, start, n) == p,
    decreases n,
{
    if n > p {
        lemma_boundaries_through(starts, start, p, n - 1);
    } else if n > 0 {
        lemma_boundaries_through(starts, start, n - 1, n - 1);
    }
}

/// The atom that begins at a symbol at `start`: it runs to the next boundary after the last one
/// at or before `start`, or to the end of the section. A label at the very end of the section
/// belongs to the atom before it.
pub open spec fn spec_atom_range(section_size: u64, starts: Seq<u64>, start: u64) -> Result<
    Range<u64>,
    AtomError,
> {
    let p = boundaries_through(starts, start, starts.len() as int);
    if p == 0 {
        Err(AtomError::SymbolBeforeSection)
    } else {
        let index = if start == section_size && starts[p - 1] == section_size && p - 1 > 0 {
            p - 2
        } else {
            p - 1
        };
        let end = if index + 1 < starts.len() {
            starts[index + 1]
        } else {
            section_size
        };
        Ok(Range { start, end })
    }
}

/// The atom of the symbol at offset `start` of a section of `section_size` bytes with atom
/// boundaries `starts`, which must be in increasing order.
pub fn atom_range(section_size: u64, starts: &[u64], start: u64) -> (r: Result<Range<u64>, AtomError>)
    requires
        forall|i: int, j: int| 0 <= i <= j < starts@.len() ==> starts@[i] <= starts@[j],
    ensures
        r == spec_atom_range(section_size, starts@, start),
{
    let mut p: usize = 0;
    while p < starts.len() && starts[p] <= start
        invariant
            0 <= p <= starts@.len(),
            forall|i: int| 0 <= i < p ==> starts@[i] <= start,
        decreases starts@.len() - p,
    {
        p = p + 1;
    }
    assert(forall|i: int| p <= i < starts@.len() ==> starts@[i] > start);
    proof {
        lemma_boundaries_through(starts@, start, p as int, starts@.len() as int);
    }
    if p == 0 {
        return Err(AtomError::SymbolBeforeSection);
    }
    let mut index = p - 1;
    if start == section_size && starts[index] == section_size && index > 0 {
        index = index - 1;
    }
    let end = if index + 1 < starts.len() {
        starts[index + 1]
    } else {
        section_size
    };
    Ok(start..end)
}

} // verus!
