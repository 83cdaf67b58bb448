//! The final `__TEXT,__eh_frame`, rebuilt from the live records of every input section.
//!
//! Each input section keeps the FDEs whose function survived, grouped under their CIEs in
//! ascending CIE offset and in input order within a CIE. Every CIE and FDE is copied, then its
//! pointer fields are rewritten against their new locations: the personality GOT slot of a
//! `zPLR` CIE, the backward CIE pointer, and the pc-relative function and LSDA fields of an FDE.
use vstd::prelude::*;
use std::collections::BTreeMap;
use std::ops::Range;
use crate::bytes::{copy_zero_padded, push_u32, u32_le_bytes, zeros};
use crate::chained_fixups::{
    insert_local_got_rebase,
    spec_insert_local_got_rebase,
    ChainedFixup,
    ChainedFixupError,
};
use crate::compact_unwind::{
    rewritten_entry,
    CompactUnwindEntry,
    EhFrameFdeIdentity,
    FinalEhFrameFdeOffsets,
    ARM64_UNWIND_DWARF_FDE_OFFSET_MASK,
    ARM64_UNWIND_MODE_DWARF,
    ARM64_UNWIND_MODE_MASK,
};
use crate::eh_frame::{
    parse_eh_frame_records,
    spec_parse_eh_frame_records,
    spec_write_eh_frame_pcrel_i32,
    spec_write_eh_frame_pcrel_i64,
    spec_write_eh_frame_u32,
    write_eh_frame_pcrel_i32,
    write_eh_frame_pcrel_i64,
    write_eh_frame_u32,
    EhFrameCie,
    EhFrameError,
    EhFrameFde,
    EhFrameWriteError,
};
use crate::sorting::{sort_by_key_stable, sorted_by_key, SortKey};

verus! {

broadcast use vstd::std_specs::btree::group_btree_axioms;

/// The final address and the input identity of a live FDE's function.
#[derive(Debug, Clone, Copy, PartialEq, Eq)]
pub struct EhFrameFunctionTarget {
    pub address: u64,
    pub identity: EhFrameFdeIdentity,
}

/// The GOT slot that a `zPLR` CIE's personality field points at, and the rebase dyld applies to
/// it when the slot is local.
#[derive(Debug, Clone, Copy, PartialEq, Eq)]
pub struct EhFramePersonalityGot {
    pub got_address: u64,
    pub local_got_rebase: Option<ChainedFixup>,
}

/// One input `__eh_frame` section and the resolved targets of its pointer fields, each keyed by
/// the section offset of the field: the functions of the FDEs that survive (an FDE whose
/// function field is absent here is dropped), the LSDAs, and the personality GOT slots.
#[derive(Debug)]
pub struct EhFrameSectionInput {
    pub data: Vec<u8>,
    pub functions: BTreeMap<usize, EhFrameFunctionTarget>,
    pub lsdas: BTreeMap<usize, u64>,
    pub personalities: BTreeMap<usize, EhFramePersonalityGot>,
}

/// What the final `__eh_frame` hands on: the final offset of every emitted FDE by the key of
/// its input identity, and the rebases of the local personality GOT slots.
#[derive(Debug)]
pub struct FinalEhFramePlan {
    pub fde_offsets: FinalEhFrameFdeOffsets,
    pub personality_got_rebases: BTreeMap<u64, u64>,
}

/// Why the final `__eh_frame` could not be built.
#[derive(Debug, Clone, Copy, PartialEq, Eq)]
pub enum EhFrameOutputError {
    /// An input section is malformed.
    Records(EhFrameError),
    /// A live FDE names a CIE that was not parsed.
    MissingCie,
    /// A `zPLR` CIE's personality field has no resolved GOT slot.
    MissingPersonality,
    /// A live FDE's LSDA field has no resolved target.
    MissingLsda,
    /// The personality slot's rebase conflicts with an earlier one, or is a bind.
    Rebase(ChainedFixupError),
    /// A record or one of its fields lies outside the section or the output.
    RecordOutOfBounds,
    /// An FDE would start beyond the 24-bit compact-unwind DWARF offset field.
    FdeOffsetTooLarge,
    /// Two live FDEs share an input identity.
    AmbiguousFde,
    /// An FDE's backward CIE pointer does not fit 32 bits.
    CiePointerTooLarge,
    /// A rewritten pointer field cannot be encoded.
    Field(EhFrameWriteError),
    /// The table and its terminator do not fit the allocated output.
    OutputTooSmall,
}

/// A live FDE: the start of its CIE, its position among the section's FDEs, and its function.
#[derive(Debug, Clone, Copy, PartialEq, Eq)]
pub struct LiveEhFrameFde {
    pub cie_record_start: usize,
    pub fde_index: usize,
    pub target: EhFrameFunctionTarget,
}

impl SortKey for LiveEhFrameFde {
    open spec fn spec_sort_key(&self) -> u64 {
        self.cie_record_start as u64
    }

    fn sort_key(&self) -> (r: u64) {
        self.cie_record_start as u64
    }
}

/// The output built so far: its bytes, where the current CIE starts in them, the FDE offsets
/// and the personality rebases.
pub struct EhFrameEmission {
    pub bytes: Seq<u8>,
    pub cie_out: int,
    pub fde_offsets: Map<(u32, usize, u64), u32>,
    pub rebases: Map<u64, u64>,
}

/// Nothing emitted yet.
pub open spec fn empty_emission() -> EhFrameEmission {
    EhFrameEmission { bytes: Seq::empty(), cie_out: 0, fde_offsets: Map::empty(), rebases: Map::empty() }
}

/// The live FDEs among the first `n`, in section order.
pub open spec fn live_fdes(
    fdes: Seq<EhFrameFde>,
    functions: Map<usize, EhFrameFunctionTarget>,
    n: int,
) -> Seq<LiveEhFrameFde>
    decreases n,
{
    if n <= 0 {
        Seq::empty()
    } else {
        let prev = live_fdes(fdes, functions, n - 1);
        let f = fdes[n - 1];
        if functions.contains_key(f.function_relocation_offset) {
            prev.push(
                LiveEhFrameFde {
                    cie_record_start: f.cie_record_start,
                    fde_index: (n - 1) as usize,
                    target: functions[f.function_relocation_offset],
                },
            )
        } else {
            prev
        }
    }
}

/// `a` is emitted before `b`: its CIE starts earlier, or it shares the CIE and comes first in
/// the section.
pub open spec fn emitted_before(a: LiveEhFrameFde, b: LiveEhFrameFde) -> bool {
    ||| a.cie_record_start < b.cie_record_start
    ||| a.cie_record_start == b.cie_record_start && a.fde_index < b.fde_index
}

/// `order` holds the live FDEs, grouped by CIE in ascending CIE offset and in section order
/// within a CIE.
pub open spec fn is_emission_order(live: Seq<LiveEhFrameFde>, order: Seq<LiveEhFrameFde>) -> bool {
    &&& order.to_multiset() == live.to_multiset()
    &&& forall|i: int, j: int|
        0 <= i < j < order.len() ==> emitted_before(#[trigger] order[i], #[trigger] order[j])
}

/// The emission order of the live FDEs (there is exactly one).
pub open spec fn emission_order(live: Seq<LiveEhFrameFde>) -> Seq<LiveEhFrameFde> {
    choose|order: Seq<LiveEhFrameFde>| is_emission_order(live, order)
}

/// The input bytes of a record.
pub open spec fn record_bytes(data: Seq<u8>, range: Range<usize>) -> Seq<u8> {
    data.subrange(range.start as int, range.end as int)
}

/// The record lies inside the section.
pub open spec fn record_in(data: Seq<u8>, range: Range<usize>) -> bool {
    range.start <= range.end <= data.len()
}

/// Where the field at section offset `field` of a record starting at `record_start` lands when
/// the record is copied to output offset `out`.
pub open spec fn output_field(out: int, field: usize, record_start: usize) -> Option<int> {
    if field < record_start || out + (field - record_start) > usize::MAX {
        None
    } else {
        Some(out + (field - record_start))
    }
}

/// Copies a CIE to the end of the output, starting a new group, and points a `zPLR` CIE's
/// personality field at its GOT slot, recording the slot's rebase.
#[verifier::opaque]
pub open spec fn spec_emit_cie(
    data: Seq<u8>,
    cie: EhFrameCie,
    personalities: Map<usize, EhFramePersonalityGot>,
    section_address: u64,
    st: EhFrameEmission,
) -> Result<EhFrameEmission, EhFrameOutputError> {
    if !record_in(data, cie.record_range) {
        Err(EhFrameOutputError::RecordOutOfBounds)
    } else {
        let out = st.bytes.len() as int;
        let copied = st.bytes + record_bytes(data, cie.record_range);
        match cie.personality_relocation_offset {
            None => Ok(EhFrameEmission { bytes: copied, cie_out: out, ..st }),
            Some(field) => if !personalities.contains_key(field) {
                Err(EhFrameOutputError::MissingPersonality)
            } else {
                let got = personalities[field];
                let rebases = match got.local_got_rebase {
                    None => Ok(st.rebases),
                    Some(fixup) => spec_insert_local_got_rebase(st.rebases, fixup),
                };
                match rebases {
                    Err(e) => Err(EhFrameOutputError::Rebase(e)),
                    Ok(rebases) => match output_field(out, field, cie.record_range.start) {
                        None => Err(EhFrameOutputError::RecordOutOfBounds),
                        Some(at) => match spec_write_eh_frame_pcrel_i32(
                            copied,
                            at,
                            section_address,
                            got.got_address,
                        ) {
                            Err(e) => Err(EhFrameOutputError::Field(e)),
                            Ok(bytes) => Ok(
                                EhFrameEmission {
                                    bytes,
                                    cie_out: out,
                                    fde_offsets: st.fde_offsets,
                                    rebases,
                                },
                            ),
                        },
                    },
                }
            },
        }
    }
}

/// Copies an FDE to the end of the output, records its offset under its function's identity,
/// and rewrites its CIE pointer and its pc-relative function and LSDA fields.
#[verifier::opaque]
pub open spec fn spec_emit_fde(
    data: Seq<u8>,
    fde: EhFrameFde,
    target: EhFrameFunctionTarget,
    lsdas: Map<usize, u64>,
    section_address: u64,
    st: EhFrameEmission,
) -> Result<EhFrameEmission, EhFrameOutputError> {
    let out = st.bytes.len() as int;
    let key = target.identity.spec_key();
    if out > ARM64_UNWIND_DWARF_FDE_OFFSET_MASK {
        Err(EhFrameOutputError::FdeOffsetTooLarge)
    } else if st.fde_offsets.contains_key(key) {
        Err(EhFrameOutputError::AmbiguousFde)
    } else if !record_in(data, fde.record_range) {
        Err(EhFrameOutputError::RecordOutOfBounds)
    } else {
        let copied = st.bytes + record_bytes(data, fde.record_range);
        let cie_pointer = out + 4 - st.cie_out;
        if cie_pointer < 0 {
            Err(EhFrameOutputError::RecordOutOfBounds)
        } else if cie_pointer > u32::MAX {
            Err(EhFrameOutputError::CiePointerTooLarge)
        } else {
            match spec_write_eh_frame_u32(copied, out + 4, cie_pointer as u32) {
                Err(e) => Err(EhFrameOutputError::Field(e)),
                Ok(b1) => match output_field(
                    out,
                    fde.function_relocation_offset,
                    fde.record_range.start,
                ) {
                    None => Err(EhFrameOutputError::RecordOutOfBounds),
                    Some(at) => match spec_write_eh_frame_pcrel_i64(
                        b1,
                        at,
                        section_address,
                        target.address,
                    ) {
                        Err(e) => Err(EhFrameOutputError::Field(e)),
                        Ok(b2) => {
                            let offsets = st.fde_offsets.insert(key, out as u32);
                            match fde.lsda_relocation_offset {
                                None => Ok(EhFrameEmission { bytes: b2, fde_offsets: offsets, ..st }),
                                Some(field) => if !lsdas.contains_key(field) {
                                    Err(EhFrameOutputError::MissingLsda)
                                } else {
                                    match output_field(out, field, fde.record_range.start) {
                                        None => Err(EhFrameOutputError::RecordOutOfBounds),
                                        Some(at) => match spec_write_eh_frame_pcrel_i64(
                                            b2,
                                            at,
                                            section_address,
                                            lsdas[field],
                                        ) {
                                            Err(e) => Err(EhFrameOutputError::Field(e)),
                                            Ok(b3) => Ok(
                                                EhFrameEmission {
                                                    bytes: b3,
                                                    fde_offsets: offsets,
                                                    ..st
                                                },
                                            ),
                                        },
                                    }
                                },
                            }
                        },
                    },
                },
            }
        }
    }
}

/// Position `k` of the emission order begins a CIE group.
pub open spec fn starts_group(order: Seq<LiveEhFrameFde>, k: int) -> bool {
    k == 0 || order[k - 1].cie_record_start != order[k].cie_record_start
}

/// Emits the live FDE at position `k` of the emission order, preceded by its CIE when it begins
/// a group.
pub open spec fn spec_emit_live(
    data: Seq<u8>,
    cies: Map<usize, EhFrameCie>,
    fdes: Seq<EhFrameFde>,
    lsdas: Map<usize, u64>,
    personalities: Map<usize, EhFramePersonalityGot>,
    section_address: u64,
    order: Seq<LiveEhFrameFde>,
    k: int,
    st: EhFrameEmission,
) -> Result<EhFrameEmission, EhFrameOutputError> {
    let live = order[k];
    let with_cie = if starts_group(order, k) {
        if !cies.contains_key(live.cie_record_start) {
            Err(EhFrameOutputError::MissingCie)
        } else {
            spec_emit_cie(data, cies[live.cie_record_start], personalities, section_address, st)
        }
    } else {
        Ok(st)
    };
    match with_cie {
        Err(e) => Err(e),
        Ok(s) => spec_emit_fde(
            data,
            fdes[live.fde_index as int],
            live.target,
            lsdas,
            section_address,
            s,
        ),
    }
}

/// Emits the first `n` live FDEs of the emission order.
pub open spec fn spec_emit_prefix(
    data: Seq<u8>,
    cies: Map<usize, EhFrameCie>,
    fdes: Seq<EhFrameFde>,
    lsdas: Map<usize, u64>,
    personalities: Map<usize, EhFramePersonalityGot>,
    section_address: u64,
    order: Seq<LiveEhFrameFde>,
    n: int,
    st: EhFrameEmission,
) -> Result<EhFrameEmission, EhFrameOutputError>
    decreases n,
{
    if n <= 0 {
        Ok(st)
    } else {
        match spec_emit_prefix(
            data,
            cies,
            fdes,
            lsdas,
            personalities,
            section_address,
            order,
            n - 1,
            st,
        ) {
            Err(e) => Err(e),
            Ok(s) => spec_emit_live(
                data,
                cies,
                fdes,
                lsdas,
                personalities,
                section_address,
                order,
                n - 1,
                s,
            ),
        }
    }
}

/// Appends the live records of one input section. An empty section, or one without FDEs,
/// contributes nothing.
#[verifier::opaque]
pub open spec fn spec_append_section(
    input: EhFrameSectionInput,
    section_address: u64,
    st: EhFrameEmission,
) -> Result<EhFrameEmission, EhFrameOutputError> {
    let data = input.data@;
    if data.len() == 0 {
        Ok(st)
    } else {
        match spec_parse_eh_frame_records(data) {
            Err(e) => Err(EhFrameOutputError::Records(e)),
            Ok((cies, fdes)) => if fdes.len() == 0 {
                Ok(st)
            } else {
                let order = emission_order(live_fdes(fdes, input.functions@, fdes.len() as int));
                spec_emit_prefix(
                    data,
                    cies,
                    fdes,
                    input.lsdas@,
                    input.personalities@,
                    section_address,
                    order,
                    order.len() as int,
                    st,
                )
            },
        }
    }
}

/// Appends the live records of the first `n` input sections.
pub open spec fn spec_append_sections(
    sections: Seq<EhFrameSectionInput>,
    section_address: u64,
    n: int,
) -> Result<EhFrameEmission, EhFrameOutputError>
    decreases n,
{
    if n <= 0 {
        Ok(empty_emission())
    } else {
        match spec_append_sections(sections, section_address, n - 1) {
            Err(e) => Err(e),
            Ok(s) => spec_append_section(sections[n - 1], section_address, s),
        }
    }
}

// ---------------------------------------------------------------------------------------------
// The emission order
// ---------------------------------------------------------------------------------------------

/// Every live FDE comes from an FDE among the first `n` with a resolved function, and live FDEs
/// keep section order.
proof fn lemma_live_fdes(fdes: Seq<EhFrameFde>, functions: Map<usize, EhFrameFunctionTarget>, n: int)
    requires
        0 <= n <= fdes.len(),
        fdes.len() <= usize::MAX,
    ensures
        forall|p: int|
            0 <= p < live_fdes(fdes, functions, n).len() ==> {
                let x = #[trigger] live_fdes(fdes, functions, n)[p];
                &&& x.fde_index < n
                &&& x.cie_record_start == fdes[x.fde_index as int].cie_record_start
            },
        forall|p: int, q: int|
            0 <= p < q < live_fdes(fdes, functions, n).len() ==> (#[trigger] live_fdes(
                fdes,
                functions,
                n,
            )[p]).fde_index < (#[trigger] live_fdes(fdes, functions, n)[q]).fde_index,
    decreases n,
{
    if n > 0 {
        lemma_live_fdes(fdes, functions, n - 1);
        let prev = live_fdes(fdes, functions, n - 1);
        let cur = live_fdes(fdes, functions, n);
        assert forall|p: int| 0 <= p < prev.len() implies cur[p] == prev[p] by {}
        assert forall|p: int, q: int| 0 <= p < q < cur.len() implies (#[trigger] cur[p]).fde_index
            < (#[trigger] cur[q]).fde_index by {
            if q < prev.len() {
                assert(prev[p].fde_index < prev[q].fde_index);
            } else {
                assert(prev[p].fde_index < n - 1);
            }
        }
    }
}

/// Two emission orders of the same live FDEs agree on their first `i + 1` positions.
proof fn lemma_emission_prefix_unique(a: Seq<LiveEhFrameFde>, b: Seq<LiveEhFrameFde>, i: int)
    requires
        forall|x: LiveEhFrameFde| a.contains(x) <==> b.contains(x),
        forall|p: int, q: int| 0 <= p < q < a.len() ==> emitted_before(#[trigger] a[p], #[trigger] a[q]),
        forall|p: int, q: int| 0 <= p < q < b.len() ==> emitted_before(#[trigger] b[p], #[trigger] b[q]),
        0 <= i < a.len(),
        i < b.len(),
    ensures
        forall|k: int| 0 <= k <= i ==> a[k] == b[k],
    decreases i,
{
    if i > 0 {
        lemma_emission_prefix_unique(a, b, i - 1);
    }
    assert(a.contains(a[i]));
    let j = choose|j: int| 0 <= j < b.len() && b[j] == a[i];
    assert(b.contains(b[i]));
    let k = choose|k: int| 0 <= k < a.len() && a[k] == b[i];
    if j < i {
        assert(a[j] == b[j]);
        assert(emitted_before(a[j], a[i]));
    } else if j > i {
        assert(emitted_before(b[i], b[j]));
        if k < i {
            assert(a[k] == b[k]);
            assert(emitted_before(b[k], b[i]));
        } else if k > i {
            assert(emitted_before(a[i], a[k]));
        }
    }
}

/// There is at most one emission order.
proof fn lemma_emission_order_unique(live: Seq<LiveEhFrameFde>, a: Seq<LiveEhFrameFde>, b: Seq<LiveEhFrameFde>)
    requires
        is_emission_order(live, a),
        is_emission_order(live, b),
    ensures
        a == b,
{
    broadcast use vstd::seq_lib::group_to_multiset_ensures;

    assert forall|x: LiveEhFrameFde| a.contains(x) <==> b.contains(x) by {
        assert(a.to_multiset().count(x) == b.to_multiset().count(x));
    }
    assert(a.len() == a.to_multiset().len());
    assert(b.len() == b.to_multiset().len());
    if a.len() > 0 {
        lemma_emission_prefix_unique(a, b, a.len() - 1);
    }
    assert(a =~= b);
}

/// The live FDEs of a section and their emission order.
fn emission_order_of(
    fdes: &Vec<EhFrameFde>,
    functions: &BTreeMap<usize, EhFrameFunctionTarget>,
) -> (r: Vec<LiveEhFrameFde>)
    ensures
        r@ == emission_order(live_fdes(fdes@, functions@, fdes@.len() as int)),
        forall|k: int|
            0 <= k < r@.len() ==> (#[trigger] r@[k]).fde_index < fdes@.len() && r@[k].cie_record_start
                == fdes@[r@[k].fde_index as int].cie_record_start,
{
    let mut live: Vec<LiveEhFrameFde> = Vec::new();
    let mut i: usize = 0;
    while i < fdes.len()
        invariant
            0 <= i <= fdes@.len(),
            live@ == live_fdes(fdes@, functions@, i as int),
        decreases fdes@.len() - i,
    {
        let fde = &fdes[i];
        match functions.get(&fde.function_relocation_offset) {
            Some(target) => {
                live.push(
                    LiveEhFrameFde {
                        cie_record_start: fde.cie_record_start,
                        fde_index: i,
                        target: *target,
                    },
                );
            },
            None => {},
        }
        i = i + 1;
    }
    let ghost all = live@;
    proof {
        lemma_live_fdes(fdes@, functions@, fdes@.len() as int);
    }
    let (sorted, Ghost(perm), Ghost(inv)) = sort_by_key_stable(&live);
    assert forall|p: int, q: int| 0 <= p < q < sorted@.len() implies emitted_before(
        #[trigger] sorted@[p],
        #[trigger] sorted@[q],
    ) by {
        assert(sorted@[p].spec_sort_key() <= sorted@[q].spec_sort_key());
        if sorted@[p].cie_record_start == sorted@[q].cie_record_start {
            assert(perm[p] < perm[q]);
            assert(all[perm[p]].fde_index < all[perm[q]].fde_index);
        }
    }
    assert(is_emission_order(all, sorted@));
    proof {
        lemma_emission_order_unique(all, sorted@, emission_order(all));
    }
    assert forall|k: int| 0 <= k < sorted@.len() implies (#[trigger] sorted@[k]).fde_index
        < fdes@.len() && sorted@[k].cie_record_start == fdes@[sorted@[k].fde_index as int].cie_record_start by {
        assert(sorted@[k] == all[perm[k]]);
    }
    sorted
}

/// Once emitting the first `k` live FDEs fails, emitting more fails the same way.
proof fn lemma_emit_prefix_error(
    data: Seq<u8>,
    cies: Map<usize, EhFrameCie>,
    fdes: Seq<EhFrameFde>,
    lsdas: Map<usize, u64>,
    personalities: Map<usize, EhFramePersonalityGot>,
    section_address: u64,
    order: Seq<LiveEhFrameFde>,
    k: int,
    n: int,
    st: EhFrameEmission,
)
    requires
        0 <= k <= n,
        spec_emit_prefix(data, cies, fdes, lsdas, personalities, section_address, order, k, st) is Err,
    ensures
        spec_emit_prefix(data, cies, fdes, lsdas, personalities, section_address, order, n, st)
            == spec_emit_prefix(data, cies, fdes, lsdas, personalities, section_address, order, k, st),
    decreases n - k,
{
    if n > k {
        lemma_emit_prefix_error(data, cies, fdes, lsdas, personalities, section_address, order, k, n - 1, st);
    }
}

/// Once appending the first `k` sections fails, appending more fails the same way.
proof fn lemma_append_sections_error(sections: Seq<EhFrameSectionInput>, section_address: u64, k: int, n: int)
    requires
        0 <= k <= n,
        spec_append_sections(sections, section_address, k) is Err,
    ensures
        spec_append_sections(sections, section_address, n) == spec_append_sections(sections, section_address, k),
    decreases n - k,
{
    if n > k {
        lemma_append_sections_error(sections, section_address, k, n - 1);
    }
}

/// Every recorded FDE offset fits the 24-bit compact-unwind DWARF field.
pub open spec fn offsets_fit(offsets: Map<(u32, usize, u64), u32>) -> bool {
    forall|k: (u32, usize, u64)| #[trigger] offsets.contains_key(k) ==> offsets[k]
        <= ARM64_UNWIND_DWARF_FDE_OFFSET_MASK
}

/// Emitting live FDEs records only offsets that fit the DWARF field.
proof fn lemma_emit_prefix_offsets_fit(
    data: Seq<u8>,
    cies: Map<usize, EhFrameCie>,
    fdes: Seq<EhFrameFde>,
    lsdas: Map<usize, u64>,
    personalities: Map<usize, EhFramePersonalityGot>,
    section_address: u64,
    order: Seq<LiveEhFrameFde>,
    n: int,
    st: EhFrameEmission,
)
    requires
        offsets_fit(st.fde_offsets),
        spec_emit_prefix(data, cies, fdes, lsdas, personalities, section_address, order, n, st) is Ok,
    ensures
        offsets_fit(
            spec_emit_prefix(data, cies, fdes, lsdas, personalities, section_address, order, n, st)->Ok_0.fde_offsets,
        ),
    decreases n,
{
    reveal(spec_emit_cie);
    reveal(spec_emit_fde);
    if n > 0 {
        lemma_emit_prefix_offsets_fit(data, cies, fdes, lsdas, personalities, section_address, order, n - 1, st);
    }
}

/// Every FDE offset that rebuilding the `__eh_frame` of `sections` records fits the 24-bit
/// compact-unwind DWARF field.
pub proof fn lemma_eh_frame_fde_offsets_fit(sections: Seq<EhFrameSectionInput>, section_address: u64, n: int)
    requires
        0 <= n,
        spec_append_sections(sections, section_address, n) is Ok,
    ensures
        offsets_fit(spec_append_sections(sections, section_address, n)->Ok_0.fde_offsets),
    decreases n,
{
    reveal(spec_append_section);
    if n > 0 {
        lemma_eh_frame_fde_offsets_fit(sections, section_address, n - 1);
        let st = spec_append_sections(sections, section_address, n - 1)->Ok_0;
        let input = sections[n - 1];
        let data = input.data@;
        if data.len() > 0 {
            let (cies, fdes) = spec_parse_eh_frame_records(data)->Ok_0;
            if fdes.len() > 0 {
                let order = emission_order(live_fdes(fdes, input.functions@, fdes.len() as int));
                lemma_emit_prefix_offsets_fit(
                    data,
                    cies,
                    fdes,
                    input.lsdas@,
                    input.personalities@,
                    section_address,
                    order,
                    order.len() as int,
                    st,
                );
            }
        }
    }
}

/// A DWARF-mode compact-unwind row whose FDE was emitted takes its final FDE offset: the
/// rewrite succeeds, puts the offset in the low 24 bits, and keeps every other bit of the
/// encoding.
pub proof fn lemma_emitted_fde_rewrites(entry: CompactUnwindEntry, offsets: Map<(u32, usize, u64), u32>)
    requires
        offsets_fit(offsets),
        entry.encoding & ARM64_UNWIND_MODE_MASK == ARM64_UNWIND_MODE_DWARF,
        entry.eh_frame_fde_identity is Some,
        offsets.contains_key(entry.eh_frame_fde_identity->0.spec_key()),
    ensures
        rewritten_entry(entry, offsets) is Ok,
        ({
            let e = rewritten_entry(entry, offsets)->Ok_0;
            let offset = offsets[entry.eh_frame_fde_identity->0.spec_key()];
            &&& e.encoding & ARM64_UNWIND_DWARF_FDE_OFFSET_MASK == offset
            &&& e.encoding & !ARM64_UNWIND_DWARF_FDE_OFFSET_MASK == entry.encoding
                & !ARM64_UNWIND_DWARF_FDE_OFFSET_MASK
            &&& e == (CompactUnwindEntry { encoding: e.encoding, ..entry })
        }),
{
    let offset = offsets[entry.eh_frame_fde_identity->0.spec_key()];
    let encoding = entry.encoding;
    assert(offset <= 0x00ff_ffffu32);
    assert(((encoding & !0x00ff_ffffu32) | offset) & 0x00ff_ffffu32 == offset) by (bit_vector)
        requires
            offset <= 0x00ff_ffffu32,
    ;
    assert((((encoding & !0x00ff_ffffu32) | offset) & !0x00ff_ffffu32) == encoding & !0x00ff_ffffu32)
        by (bit_vector)
        requires
            offset <= 0x00ff_ffffu32,
    ;
}

// ---------------------------------------------------------------------------------------------
// Emitting records
// ---------------------------------------------------------------------------------------------

/// Copies `cie` to the end of `serialized` and rewrites its personality field; yields where the
/// CIE starts in the output.
fn emit_cie(
    data: &[u8],
    cie: &EhFrameCie,
    personalities: &BTreeMap<usize, EhFramePersonalityGot>,
    section_address: u64,
    serialized: &mut Vec<u8>,
    rebases: &mut BTreeMap<u64, u64>,
    Ghost(st): Ghost<EhFrameEmission>,
) -> (r: Result<usize, EhFrameOutputError>)
    requires
        st.bytes == old(serialized)@,
        st.rebases == old(rebases)@,
    ensures
        match spec_emit_cie(data@, *cie, personalities@, section_address, st) {
            Ok(s) => r == Ok::<usize, EhFrameOutputError>(s.cie_out as usize) && s.cie_out
                <= usize::MAX && final(serialized)@ == s.bytes && final(rebases)@ == s.rebases
                && s.fde_offsets == st.fde_offsets && s.cie_out == st.bytes.len(),
            Err(e) => r == Err::<usize, EhFrameOutputError>(e),
        },
{
    reveal(spec_emit_cie);
    let start = cie.record_range.start;
    let end = cie.record_range.end;
    if !(start <= end && end <= data.len()) {
        return Err(EhFrameOutputError::RecordOutOfBounds);
    }
    let out = serialized.len();
    serialized.extend_from_slice(vstd::slice::slice_subrange(data, start, end));
    assert(serialized@ =~= st.bytes + record_bytes(data@, cie.record_range));
    let field = match cie.personality_relocation_offset {
        None => {
            return Ok(out);
        },
        Some(field) => field,
    };
    let got = match personalities.get(&field) {
        None => {
            return Err(EhFrameOutputError::MissingPersonality);
        },
        Some(got) => *got,
    };
    match got.local_got_rebase {
        None => {},
        Some(fixup) => {
            match insert_local_got_rebase(rebases, fixup) {
                Err(e) => {
                    return Err(EhFrameOutputError::Rebase(e));
                },
                Ok(()) => {},
            }
        },
    }
    if field < start {
        return Err(EhFrameOutputError::RecordOutOfBounds);
    }
    let relative = field - start;
    if out > usize::MAX - relative {
        return Err(EhFrameOutputError::RecordOutOfBounds);
    }
    let at = out + relative;
    match write_eh_frame_pcrel_i32(
        serialized.as_mut_slice(),
        at,
        section_address,
        got.got_address,
        "personality GOT slot",
    ) {
        Err(e) => Err(EhFrameOutputError::Field(e)),
        Ok(()) => Ok(out),
    }
}

/// Copies `fde` to the end of `serialized`, records its offset, and rewrites its CIE pointer
/// and its function and LSDA fields.
fn emit_fde(
    data: &[u8],
    fde: &EhFrameFde,
    target: EhFrameFunctionTarget,
    lsdas: &BTreeMap<usize, u64>,
    section_address: u64,
    cie_out: usize,
    serialized: &mut Vec<u8>,
    fde_offsets: &mut FinalEhFrameFdeOffsets,
    Ghost(st): Ghost<EhFrameEmission>,
) -> (r: Result<(), EhFrameOutputError>)
    requires
        st.bytes == old(serialized)@,
        st.fde_offsets == old(fde_offsets)@,
        st.cie_out == cie_out,
    ensures
        match spec_emit_fde(data@, *fde, target, lsdas@, section_address, st) {
            Ok(s) => r is Ok && final(serialized)@ == s.bytes && final(fde_offsets)@
                == s.fde_offsets && s.cie_out == st.cie_out && s.rebases == st.rebases,
            Err(e) => r == Err::<(), EhFrameOutputError>(e),
        },
{
    reveal(spec_emit_fde);
    let out = serialized.len();
    if out > ARM64_UNWIND_DWARF_FDE_OFFSET_MASK as usize {
        return Err(EhFrameOutputError::FdeOffsetTooLarge);
    }
    let key = target.identity.key();
    if fde_offsets.contains_key(&key) {
        return Err(EhFrameOutputError::AmbiguousFde);
    }
    let start = fde.record_range.start;
    let end = fde.record_range.end;
    if !(start <= end && end <= data.len()) {
        return Err(EhFrameOutputError::RecordOutOfBounds);
    }
    fde_offsets.insert(key, out as u32);
    serialized.extend_from_slice(vstd::slice::slice_subrange(data, start, end));
    assert(serialized@ =~= st.bytes + record_bytes(data@, fde.record_range));
    if cie_out > out + 4 {
        return Err(EhFrameOutputError::RecordOutOfBounds);
    }
    let cie_pointer = out + 4 - cie_out;
    if cie_pointer > 0xffff_ffff {
        return Err(EhFrameOutputError::CiePointerTooLarge);
    }
    match write_eh_frame_u32(serialized.as_mut_slice(), out + 4, cie_pointer as u32, "CIE pointer") {
        Err(e) => {
            return Err(EhFrameOutputError::Field(e));
        },
        Ok(()) => {},
    }
    let function_field = fde.function_relocation_offset;
    if function_field < start || out > usize::MAX - (function_field - start) {
        return Err(EhFrameOutputError::RecordOutOfBounds);
    }
    match write_eh_frame_pcrel_i64(
        serialized.as_mut_slice(),
        out + (function_field - start),
        section_address,
        target.address,
        "function",
    ) {
        Err(e) => {
            return Err(EhFrameOutputError::Field(e));
        },
        Ok(()) => {},
    }
    let lsda_field = match fde.lsda_relocation_offset {
        None => {
            return Ok(());
        },
        Some(field) => field,
    };
    let lsda_address = match lsdas.get(&lsda_field) {
        None => {
            return Err(EhFrameOutputError::MissingLsda);
        },
        Some(address) => *address,
    };
    if lsda_field < start || out > usize::MAX - (lsda_field - start) {
        return Err(EhFrameOutputError::RecordOutOfBounds);
    }
    match write_eh_frame_pcrel_i64(
        serialized.as_mut_slice(),
        out + (lsda_field - start),
        section_address,
        lsda_address,
        "LSDA",
    ) {
        Err(e) => Err(EhFrameOutputError::Field(e)),
        Ok(()) => Ok(()),
    }
}

/// Appends the live records of one input section to `serialized`, recording their FDE offsets
/// and personality rebases in `plan`.
fn append_eh_frame_section(
    input: &EhFrameSectionInput,
    section_address: u64,
    serialized: &mut Vec<u8>,
    plan: &mut FinalEhFramePlan,
    Ghost(st): Ghost<EhFrameEmission>,
) -> (r: Result<(), EhFrameOutputError>)
    requires
        st.bytes == old(serialized)@,
        st.fde_offsets == old(plan).fde_offsets@,
        st.rebases == old(plan).personality_got_rebases@,
    ensures
        match spec_append_section(*input, section_address, st) {
            Ok(s) => r is Ok && final(serialized)@ == s.bytes && final(plan).fde_offsets@
                == s.fde_offsets && final(plan).personality_got_rebases@ == s.rebases,
            Err(e) => r == Err::<(), EhFrameOutputError>(e),
        },
{
    reveal(spec_append_section);
    let data = input.data.as_slice();
    if data.len() == 0 {
        return Ok(());
    }
    let records = match parse_eh_frame_records(data) {
        Err(e) => {
            return Err(EhFrameOutputError::Records(e));
        },
        Ok(records) => records,
    };
    if records.fdes.len() == 0 {
        return Ok(());
    }
    let order = emission_order_of(&records.fdes, &input.functions);
    let ghost cies = records.cies@;
    let ghost fdes = records.fdes@;
    assert(spec_append_section(*input, section_address, st) == spec_emit_prefix(
        data@,
        cies,
        fdes,
        input.lsdas@,
        input.personalities@,
        section_address,
        order@,
        order@.len() as int,
        st,
    ));
    let mut cie_out: usize = 0;
    let mut k: usize = 0;
    while k < order.len()
        invariant
            0 <= k <= order@.len(),
            data@ == input.data@,
            cies == records.cies@,
            fdes == records.fdes@,
            data@.len() > 0,
            fdes.len() > 0,
            spec_parse_eh_frame_records(data@) == Ok::<
                (Map<usize, EhFrameCie>, Seq<EhFrameFde>),
                EhFrameError,
            >((cies, fdes)),
            order@ == emission_order(live_fdes(fdes, input.functions@, fdes.len() as int)),
            spec_append_section(*input, section_address, st) == spec_emit_prefix(
                data@,
                cies,
                fdes,
                input.lsdas@,
                input.personalities@,
                section_address,
                order@,
                order@.len() as int,
                st,
            ),
            forall|j: int|
                0 <= j < order@.len() ==> (#[trigger] order@[j]).fde_index < fdes.len()
                    && order@[j].cie_record_start == fdes[order@[j].fde_index as int].cie_record_start,
            spec_emit_prefix(
                data@,
                cies,
                fdes,
                input.lsdas@,
                input.personalities@,
                section_address,
                order@,
                k as int,
                st,
            ) matches Ok(s) && s.bytes == serialized@ && s.fde_offsets == plan.fde_offsets@
                && s.rebases == plan.personality_got_rebases@ && (k > 0 ==> s.cie_out == cie_out),
        decreases order@.len() - k,
    {
        let ghost s = spec_emit_prefix(
            data@,
            cies,
            fdes,
            input.lsdas@,
            input.personalities@,
            section_address,
            order@,
            k as int,
            st,
        )->Ok_0;
        let live = order[k];
        let starts = k == 0 || order[k - 1].cie_record_start != live.cie_record_start;
        assert(starts == starts_group(order@, k as int));
        let ghost next = spec_emit_prefix(
            data@,
            cies,
            fdes,
            input.lsdas@,
            input.personalities@,
            section_address,
            order@,
            k + 1,
            st,
        );
        assert(next == spec_emit_live(
            data@,
            cies,
            fdes,
            input.lsdas@,
            input.personalities@,
            section_address,
            order@,
            k as int,
            s,
        ));
        let ghost mut s1 = s;
        if starts {
            let cie = match records.cies.get(&live.cie_record_start) {
                None => {
                    assert(!cies.contains_key(live.cie_record_start));
                    assert(next == Err::<EhFrameEmission, EhFrameOutputError>(
                        EhFrameOutputError::MissingCie,
                    ));
                    proof {
                        lemma_emit_prefix_error(
                            data@,
                            cies,
                            fdes,
                            input.lsdas@,
                            input.personalities@,
                            section_address,
                            order@,
                            k + 1,
                            order@.len() as int,
                            st,
                        );
                    }
                    return Err(EhFrameOutputError::MissingCie);
                },
                Some(cie) => cie,
            };
            match emit_cie(
                data,
                cie,
                &input.personalities,
                section_address,
                serialized,
                &mut plan.personality_got_rebases,
                Ghost(s),
            ) {
                Err(e) => {
                    assert(cies[live.cie_record_start] == *cie);
                    assert(next == Err::<EhFrameEmission, EhFrameOutputError>(e));
                    proof {
                        lemma_emit_prefix_error(
                            data@,
                            cies,
                            fdes,
                            input.lsdas@,
                            input.personalities@,
                            section_address,
                            order@,
                            k + 1,
                            order@.len() as int,
                            st,
                        );
                    }
                    return Err(e);
                },
                Ok(out) => {
                    cie_out = out;
                },
            }
            proof {
                s1 = spec_emit_cie(data@, *cie, input.personalities@, section_address, s)->Ok_0;
                assert(cies[live.cie_record_start] == *cie);
            }
        }
        match emit_fde(
            data,
            &records.fdes[live.fde_index],
            live.target,
            &input.lsdas,
            section_address,
            cie_out,
            serialized,
            &mut plan.fde_offsets,
            Ghost(s1),
        ) {
            Err(e) => {
                proof {
                    lemma_emit_prefix_error(
                        data@,
                        cies,
                        fdes,
                        input.lsdas@,
                        input.personalities@,
                        section_address,
                        order@,
                        k + 1,
                        order@.len() as int,
                        st,
                    );
                }
                return Err(e);
            },
            Ok(()) => {},
        }
        k = k + 1;
    }
    Ok(())
}

/// Rebuilds the final `__eh_frame` into `output` from the live records of `sections`, taken in
/// order, and ends it with a zero terminator; the rest of `output` is zeroed. An empty output
/// means the table was not allocated: nothing is written and the plan is empty.
pub fn write_eh_frame(
    sections: &[EhFrameSectionInput],
    section_address: u64,
    output: &mut [u8],
) -> (r: Result<FinalEhFramePlan, EhFrameOutputError>)
    ensures
        final(output)@.len() == old(output)@.len(),
        r is Err ==> final(output)@ == old(output)@,
        old(output)@.len() == 0 ==> (r matches Ok(plan) && plan.fde_offsets@ == Map::<
            (u32, usize, u64),
            u32,
        >::empty() && plan.personality_got_rebases@ == Map::<u64, u64>::empty()),
        old(output)@.len() > 0 ==> match spec_append_sections(
            sections@,
            section_address,
            sections@.len() as int,
        ) {
            Err(e) => r == Err::<FinalEhFramePlan, EhFrameOutputError>(e),
            Ok(s) => if s.bytes.len() + 4 > old(output)@.len() {
                r == Err::<FinalEhFramePlan, EhFrameOutputError>(
                    EhFrameOutputError::OutputTooSmall,
                )
            } else {
                (r matches Ok(plan) && plan.fde_offsets@ == s.fde_offsets
                    && plan.personality_got_rebases@ == s.rebases && final(output)@ == s.bytes
                    + u32_le_bytes(0) + zeros(old(output)@.len() - s.bytes.len() - 4))
            },
        },
{
    let mut plan = FinalEhFramePlan {
        fde_offsets: BTreeMap::new(),
        personality_got_rebases: BTreeMap::new(),
    };
    if output.len() == 0 {
        return Ok(plan);
    }
    let mut serialized: Vec<u8> = Vec::new();
    let mut i: usize = 0;
    while i < sections.len()
        invariant
            0 <= i <= sections@.len(),
            old(output)@ == output@,
            output@.len() > 0,
            spec_append_sections(sections@, section_address, i as int) matches Ok(s) && s.bytes
                == serialized@ && s.fde_offsets == plan.fde_offsets@ && s.rebases
                == plan.personality_got_rebases@,
        decreases sections@.len() - i,
    {
        let ghost st = spec_append_sections(sections@, section_address, i as int)->Ok_0;
        match append_eh_frame_section(
            &sections[i],
            section_address,
            &mut serialized,
            &mut plan,
            Ghost(st),
        ) {
            Err(e) => {
                proof {
                    lemma_append_sections_error(
                        sections@,
                        section_address,
                        i + 1,
                        sections@.len() as int,
                    );
                }
                return Err(e);
            },
            Ok(()) => {},
        }
        i = i + 1;
    }
    let ghost body = serialized@;
    push_u32(&mut serialized, 0);
    if serialized.len() > output.len() {
        return Err(EhFrameOutputError::OutputTooSmall);
    }
    copy_zero_padded(output, serialized.as_slice());
    Ok(plan)
}

} // verus!
