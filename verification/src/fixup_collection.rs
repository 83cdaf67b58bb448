//! Which relocations of the input become chained fixups, and how the fixups of the whole image
//! are gathered by segment into chains: binds of imported slots, rebases of local data pointers,
//! binds of data pointers to imports, and rebases of local GOT slots.
use vstd::prelude::*;
use std::collections::BTreeMap;
use vstd::std_specs::iter::IteratorSpec;
use crate::bytes::{le_u64, read_u64_le};
use crate::chained_fixups::{
    is_segment_plan, plan_segment_chained_fixups, segment_fixups_valid, ChainedFixup,
    ChainedFixupError, ChainedFixupKind, ChainedFixups, SegmentChainedFixups,
};
use crate::symbols::{ImportedSymbol, ImportedSymbolBinding};
use crate::image::{
    file_end, file_offset_for_address, lemma_first_segment_holding, segment_for_address,
    segments_well_formed, spec_file_offset_for_address, spec_segment_for_address, ImageError,
    OutputSegment,
};
use crate::relocations::{
    NormalizedRelocation, RelocationInfo, ARM64_RELOC_GOT_LOAD_PAGE21,
    ARM64_RELOC_GOT_LOAD_PAGEOFF12, ARM64_RELOC_POINTER_TO_GOT, ARM64_RELOC_UNSIGNED,
};

verus! {

broadcast use vstd::std_specs::btree::group_btree_axioms;

/// The size of a fixed-up pointer.
pub const POINTER_SIZE: u64 = 8;

/// Why the fixups of the image could not be gathered.
#[derive(Debug, Clone, Copy, PartialEq, Eq)]
pub enum FixupCollectionError {
    /// An address could not be placed in the image.
    Image(ImageError),
    /// An address computation overflows.
    AddressOverflow,
    /// A data pointer to an import has no chained import record.
    MissingImport,
    /// A data pointer's addend does not fit a bind's eight bits.
    AddendTooLarge,
    /// A data pointer's field lies past the end of its input section.
    FieldOutsideSection,
    /// A live data pointer has no place in the output.
    NoOutputOffset,
    /// Two binds of one pointer differ.
    ConflictingBind,
    /// An imported GOT slot lies outside `__got`.
    BindOutsideGot,
    /// An imported thread-variable pointer lies outside `__thread_ptrs`.
    BindOutsideTlvp,
    /// The fixups of a segment cannot be chained.
    Chain(ChainedFixupError),
}

/// Whether a relocation writes a 64-bit data pointer: an absolute `ARM64_RELOC_UNSIGNED` that
/// is not the minuend of a pointer difference.
pub open spec fn is_data_pointer(r: NormalizedRelocation) -> bool {
    &&& r.subtractor is None
    &&& r.info.r_type == ARM64_RELOC_UNSIGNED
    &&& r.info.r_length == 3
    &&& !r.info.r_pcrel
}

/// The rebase that a relocation asks of dyld, if any: a live data pointer that is not bound to
/// an import and is not a descriptor's TLS offset, whose written value names this image.
pub open spec fn spec_local_rebase_fixup(
    segments: Seq<OutputSegment>,
    relocation: NormalizedRelocation,
    storage_live: bool,
    output_offset: Option<u64>,
    target_is_dynamic: bool,
    is_tlv_data_pointer: bool,
    section_address: u64,
    output: Seq<u8>,
) -> Result<Option<ChainedFixup>, FixupCollectionError> {
    if !is_data_pointer(relocation) || !storage_live || output_offset is None || (relocation.info.r_extern
        && target_is_dynamic) || (relocation.info.r_extern && is_tlv_data_pointer) {
        Ok(None)
    } else {
        let address = section_address + output_offset->0;
        if address > u64::MAX {
            Err(FixupCollectionError::AddressOverflow)
        } else {
            match spec_file_offset_for_address(segments, address as u64, POINTER_SIZE) {
                Err(e) => Err(FixupCollectionError::Image(e)),
                Ok(o) => {
                    let target = le_u64(output, o) as u64;
                    if spec_segment_for_address(segments, target, 0) is Ok {
                        Ok(
                            Some(
                                ChainedFixup {
                                    address: address as u64,
                                    kind: ChainedFixupKind::Rebase { target },
                                },
                            ),
                        )
                    } else {
                        Ok(None)
                    }
                },
            }
        }
    }
}

/// The rebase of a relocation's pointer, read back from the written `output`: a 64-bit
/// absolute pointer whose storage survived, that is not bound to an import and is not the TLS
/// offset in a thread-variable descriptor, and whose value lies inside the image. A value
/// outside the image is a plain integer and stays as written.
pub fn local_rebase_fixup(
    segments: &[OutputSegment],
    relocation: &NormalizedRelocation,
    storage_live: bool,
    output_offset: Option<u64>,
    target_is_dynamic: bool,
    is_tlv_data_pointer: bool,
    section_address: u64,
    output: &[u8],
) -> (r: Result<Option<ChainedFixup>, FixupCollectionError>)
    requires
        segments_well_formed(segments@),
        forall|i: int| 0 <= i < segments@.len() ==> file_end(#[trigger] segments@[i]) <= output@.len(),
    ensures
        r == spec_local_rebase_fixup(
            segments@,
            *relocation,
            storage_live,
            output_offset,
            target_is_dynamic,
            is_tlv_data_pointer,
            section_address,
            output@,
        ),
{
    let info = relocation.info;
    if relocation.subtractor.is_some() || info.r_type != ARM64_RELOC_UNSIGNED || info.r_length != 3
        || info.r_pcrel || !storage_live {
        return Ok(None);
    }
    let offset = match output_offset {
        None => {
            return Ok(None);
        },
        Some(offset) => offset,
    };
    if info.r_extern && (target_is_dynamic || is_tlv_data_pointer) {
        return Ok(None);
    }
    if section_address > u64::MAX - offset {
        return Err(FixupCollectionError::AddressOverflow);
    }
    let address = section_address + offset;
    let file_offset = match file_offset_for_address(segments, address, POINTER_SIZE as usize) {
        Err(e) => {
            return Err(FixupCollectionError::Image(e));
        },
        Ok(o) => o,
    };
    proof {
        lemma_first_segment_holding(segments@, address, address + POINTER_SIZE, 0);
    }
    let target = read_u64_le(output, file_offset);
    match segment_for_address(segments, target, 0) {
        Ok(_) => Ok(Some(ChainedFixup { address, kind: ChainedFixupKind::Rebase { target } })),
        Err(_) => Ok(None),
    }
}

/// The position of the first import whose symbol is `symbol`.
pub open spec fn first_import_position(imported_symbols: Seq<u32>, symbol: u32, n: int) -> Option<int>
    decreases n,
{
    if n <= 0 {
        None
    } else {
        match first_import_position(imported_symbols, symbol, n - 1) {
            Some(i) => Some(i),
            None => if imported_symbols[n - 1] == symbol {
                Some(n - 1)
            } else {
                None
            },
        }
    }
}

/// The bind that a data pointer to an imported symbol asks of dyld, if any.
pub open spec fn spec_direct_data_bind(
    relocation: NormalizedRelocation,
    storage_live: bool,
    target_is_dynamic: bool,
    imported_symbols: Seq<u32>,
    dynamic_symbol: u32,
    input: Seq<u8>,
    output_offset: Option<u64>,
    section_address: u64,
) -> Result<Option<ChainedFixup>, FixupCollectionError> {
    let info = relocation.info;
    if !is_data_pointer(relocation) || !info.r_extern || !storage_live || !target_is_dynamic {
        Ok(None)
    } else {
        match first_import_position(imported_symbols, dynamic_symbol, imported_symbols.len() as int) {
            None => Err(FixupCollectionError::MissingImport),
            Some(import_index) => {
                let start = info.r_address as int;
                if start + POINTER_SIZE > usize::MAX {
                    Err(FixupCollectionError::AddressOverflow)
                } else if start + POINTER_SIZE > input.len() {
                    Err(FixupCollectionError::FieldOutsideSection)
                } else if le_u64(input, start) > 0xff {
                    Err(FixupCollectionError::AddendTooLarge)
                } else {
                    match output_offset {
                        None => Err(FixupCollectionError::NoOutputOffset),
                        Some(offset) => if section_address + offset > u64::MAX {
                            Err(FixupCollectionError::AddressOverflow)
                        } else {
                            Ok(
                                Some(
                                    ChainedFixup {
                                        address: (section_address + offset) as u64,
                                        kind: ChainedFixupKind::Bind {
                                            import_index: import_index as usize,
                                            addend: le_u64(input, start) as u8,
                                        },
                                    },
                                ),
                            )
                        },
                    }
                }
            },
        }
    }
}

/// The bind of an absolute data pointer to an imported symbol, such as a typeinfo's vtable
/// field: dyld binds the pointer itself, with the addend that the input stored in it, as well as
/// any GOT slot of the same import. `imported_symbols` lists the symbol of each chained import.
pub fn direct_dynamic_data_bind(
    relocation: &NormalizedRelocation,
    storage_live: bool,
    target_is_dynamic: bool,
    imported_symbols: &[u32],
    dynamic_symbol: u32,
    input: &[u8],
    output_offset: Option<u64>,
    section_address: u64,
) -> (r: Result<Option<ChainedFixup>, FixupCollectionError>)
    ensures
        r == spec_direct_data_bind(
            *relocation,
            storage_live,
            target_is_dynamic,
            imported_symbols@,
            dynamic_symbol,
            input@,
            output_offset,
            section_address,
        ),
{
    let info = relocation.info;
    if relocation.subtractor.is_some() || !info.r_extern || info.r_type != ARM64_RELOC_UNSIGNED
        || info.r_length != 3 || info.r_pcrel || !storage_live || !target_is_dynamic {
        return Ok(None);
    }
    let position = import_position(imported_symbols, dynamic_symbol);
    let import_index = match position {
        None => {
            return Err(FixupCollectionError::MissingImport);
        },
        Some(p) => p,
    };
    let start = info.r_address as usize;
    if start > usize::MAX - 8 {
        return Err(FixupCollectionError::AddressOverflow);
    }
    if start + 8 > input.len() {
        return Err(FixupCollectionError::FieldOutsideSection);
    }
    let addend = read_u64_le(input, start);
    if addend > 0xff {
        return Err(FixupCollectionError::AddendTooLarge);
    }
    let offset = match output_offset {
        None => {
            return Err(FixupCollectionError::NoOutputOffset);
        },
        Some(offset) => offset,
    };
    if section_address > u64::MAX - offset {
        return Err(FixupCollectionError::AddressOverflow);
    }
    Ok(
        Some(
            ChainedFixup {
                address: section_address + offset,
                kind: ChainedFixupKind::Bind { import_index, addend: addend as u8 },
            },
        ),
    )
}

/// The position of the first import whose symbol is `symbol`.
fn import_position(imported_symbols: &[u32], symbol: u32) -> (r: Option<usize>)
    ensures
        match first_import_position(imported_symbols@, symbol, imported_symbols@.len() as int) {
            Some(i) => r == Some(i as usize),
            None => r is None,
        },
{
    let mut i: usize = 0;
    while i < imported_symbols.len()
        invariant
            0 <= i <= imported_symbols@.len(),
            first_import_position(imported_symbols@, symbol, i as int) is None,
        decreases imported_symbols@.len() - i,
    {
        if imported_symbols[i] == symbol {
            proof {
                lemma_first_import_position_stays(imported_symbols@, symbol, i + 1, imported_symbols@.len() as int);
            }
            return Some(i);
        }
        i = i + 1;
    }
    None
}

/// Once the first `k` imports hold the symbol, the first `n` hold it at the same position.
proof fn lemma_first_import_position_stays(imported_symbols: Seq<u32>, symbol: u32, k: int, n: int)
    requires
        0 <= k <= n,
        first_import_position(imported_symbols, symbol, k) is Some,
    ensures
        first_import_position(imported_symbols, symbol, n) == first_import_position(
            imported_symbols,
            symbol,
            k,
        ),
    decreases n - k,
{
    if n > k {
        lemma_first_import_position_stays(imported_symbols, symbol, k, n - 1);
    }
}

/// The binds recorded so far with one more: a pointer is bound once, and a second bind of it
/// must be the same.
pub open spec fn spec_insert_data_bind(binds: Map<u64, (usize, u8)>, fixup: ChainedFixup) -> Result<
    Map<u64, (usize, u8)>,
    FixupCollectionError,
> {
    match fixup.kind {
        ChainedFixupKind::Bind { import_index, addend } => if binds.contains_key(fixup.address) {
            if binds[fixup.address] == (import_index, addend) {
                Ok(binds)
            } else {
                Err(FixupCollectionError::ConflictingBind)
            }
        } else {
            Ok(binds.insert(fixup.address, (import_index, addend)))
        },
        ChainedFixupKind::Rebase { .. } => Ok(binds),
    }
}

/// Records a data-pointer bind by address; a pointer bound twice must be bound the same way.
pub fn insert_data_bind(binds: &mut BTreeMap<u64, (usize, u8)>, fixup: ChainedFixup) -> (r: Result<
    (),
    FixupCollectionError,
>)
    ensures
        match spec_insert_data_bind(old(binds)@, fixup) {
            Ok(m) => r is Ok && final(binds)@ == m,
            Err(e) => r == Err::<(), FixupCollectionError>(e) && final(binds)@ == old(binds)@,
        },
{
    let (import_index, addend) = match fixup.kind {
        ChainedFixupKind::Bind { import_index, addend } => (import_index, addend),
        ChainedFixupKind::Rebase { .. } => {
            return Ok(());
        },
    };
    match binds.get(&fixup.address) {
        Some(previous) => {
            if previous.0 != import_index || previous.1 != addend {
                return Err(FixupCollectionError::ConflictingBind);
            }
            Ok(())
        },
        None => {
            binds.insert(fixup.address, (import_index, addend));
            Ok(())
        },
    }
}

/// The binds of a map from pointer address to import and addend, in the map's order.
pub fn data_bind_fixups(binds: &BTreeMap<u64, (usize, u8)>) -> (r: Vec<ChainedFixup>)
    ensures
        r@.len() == binds.iter().remaining().len(),
        forall|i: int|
            0 <= i < r@.len() ==> #[trigger] r@[i] == (ChainedFixup {
                address: *binds.iter().remaining()[i].0,
                kind: ChainedFixupKind::Bind {
                    import_index: binds.iter().remaining()[i].1.0,
                    addend: binds.iter().remaining()[i].1.1,
                },
            }),
{
    let ghost pairs = binds.iter().remaining();
    let mut fixups: Vec<ChainedFixup> = Vec::new();
    for (address, value) in it: binds.iter()
        invariant
            pairs == binds.iter().remaining(),
            fixups@.len() == it.index(),
            forall|i: int|
                0 <= i < fixups@.len() ==> #[trigger] fixups@[i] == (ChainedFixup {
                    address: *pairs[i].0,
                    kind: ChainedFixupKind::Bind { import_index: pairs[i].1.0, addend: pairs[i].1.1 },
                }),
    {
        fixups.push(
            ChainedFixup {
                address: *address,
                kind: ChainedFixupKind::Bind { import_index: value.0, addend: value.1 },
            },
        );
    }
    fixups
}

/// The rebases of a map from slot address to target, in the map's order.
pub fn rebase_fixups(rebases: &BTreeMap<u64, u64>) -> (r: Vec<ChainedFixup>)
    ensures
        r@.len() == rebases.iter().remaining().len(),
        forall|i: int|
            0 <= i < r@.len() ==> #[trigger] r@[i] == (ChainedFixup {
                address: *rebases.iter().remaining()[i].0,
                kind: ChainedFixupKind::Rebase { target: *rebases.iter().remaining()[i].1 },
            }),
{
    let ghost pairs = rebases.iter().remaining();
    let mut fixups: Vec<ChainedFixup> = Vec::new();
    for (address, target) in it: rebases.iter()
        invariant
            pairs == rebases.iter().remaining(),
            fixups@.len() == it.index(),
            forall|i: int|
                0 <= i < fixups@.len() ==> #[trigger] fixups@[i] == (ChainedFixup {
                    address: *pairs[i].0,
                    kind: ChainedFixupKind::Rebase { target: *pairs[i].1 },
                }),
    {
        fixups.push(ChainedFixup { address: *address, kind: ChainedFixupKind::Rebase { target: *target } });
    }
    fixups
}

/// Whether a relocation loads through a GOT slot, so that a locally defined target needs the
/// slot rebased.
pub open spec fn spec_is_local_got_relocation(info: RelocationInfo) -> bool {
    &&& info.r_extern
    &&& (info.r_type == ARM64_RELOC_GOT_LOAD_PAGE21 || info.r_type == ARM64_RELOC_GOT_LOAD_PAGEOFF12
        || info.r_type == ARM64_RELOC_POINTER_TO_GOT)
}

/// Whether a relocation reaches its symbol through a GOT slot.
pub fn is_local_got_relocation(info: &RelocationInfo) -> (r: bool)
    ensures
        r == spec_is_local_got_relocation(*info),
{
    info.r_extern && (info.r_type == ARM64_RELOC_GOT_LOAD_PAGE21 || info.r_type
        == ARM64_RELOC_GOT_LOAD_PAGEOFF12 || info.r_type == ARM64_RELOC_POINTER_TO_GOT)
}

/// The address range of an output section.
#[derive(Debug, Clone, Copy, PartialEq, Eq)]
pub struct SectionRange {
    pub mem_offset: u64,
    pub mem_size: u64,
}

/// The slot address of an import's binding.
pub open spec fn binding_address(binding: ImportedSymbolBinding) -> u64 {
    match binding {
        ImportedSymbolBinding::Got { got_address, .. } => got_address,
        ImportedSymbolBinding::Tlvp { tlvp_address } => tlvp_address,
    }
}

/// Whether a pointer at `address` lies within `range`.
pub open spec fn slot_in(address: u64, range: SectionRange) -> bool {
    address >= range.mem_offset && address + POINTER_SIZE <= range.mem_offset + range.mem_size
}

/// The bind of the slot of import `i`.
pub open spec fn import_bind(i: int, binding: ImportedSymbolBinding) -> ChainedFixup {
    ChainedFixup {
        address: binding_address(binding),
        kind: ChainedFixupKind::Bind { import_index: i as usize, addend: 0 },
    }
}

/// Why the slot of an import is refused, if it is: it lies outside the section of its kind, or
/// in no segment.
pub open spec fn import_error(
    segments: Seq<OutputSegment>,
    binding: ImportedSymbolBinding,
    got: SectionRange,
    tlvp: SectionRange,
) -> Option<FixupCollectionError> {
    let address = binding_address(binding);
    let in_section = match binding {
        ImportedSymbolBinding::Got { .. } => slot_in(address, got),
        ImportedSymbolBinding::Tlvp { .. } => slot_in(address, tlvp),
    };
    if !in_section {
        match binding {
            ImportedSymbolBinding::Got { .. } => Some(FixupCollectionError::BindOutsideGot),
            ImportedSymbolBinding::Tlvp { .. } => Some(FixupCollectionError::BindOutsideTlvp),
        }
    } else {
        match spec_segment_for_address(segments, address, POINTER_SIZE) {
            Err(e) => Some(FixupCollectionError::Image(e)),
            Ok(_) => None,
        }
    }
}

/// The first refused import slot among the first `n`.
pub open spec fn first_import_error(
    segments: Seq<OutputSegment>,
    bindings: Seq<ImportedSymbolBinding>,
    got: SectionRange,
    tlvp: SectionRange,
    n: int,
) -> Option<FixupCollectionError>
    decreases n,
{
    if n <= 0 {
        None
    } else {
        match first_import_error(segments, bindings, got, tlvp, n - 1) {
            Some(e) => Some(e),
            None => import_error(segments, bindings[n - 1], got, tlvp),
        }
    }
}

/// The first of the first `n` fixups that lies in no segment, by why.
pub open spec fn first_placement_error(segments: Seq<OutputSegment>, fixups: Seq<ChainedFixup>, n: int) -> Option<
    ImageError,
>
    decreases n,
{
    if n <= 0 {
        None
    } else {
        match first_placement_error(segments, fixups, n - 1) {
            Some(e) => Some(e),
            None => match spec_segment_for_address(segments, fixups[n - 1].address, POINTER_SIZE) {
                Err(e) => Some(e),
                Ok(_) => None,
            },
        }
    }
}

/// Every fixup of the image: the binds of the import slots, then the others.
pub open spec fn all_fixups(bindings: Seq<ImportedSymbolBinding>, others: Seq<ChainedFixup>) -> Seq<ChainedFixup> {
    Seq::new(bindings.len(), |i: int| import_bind(i, bindings[i])) + others
}

/// The fixups among the first `n` that lie in segment `s`, in their order.
pub open spec fn segment_bucket(segments: Seq<OutputSegment>, fixups: Seq<ChainedFixup>, n: int, s: int) -> Seq<
    ChainedFixup,
>
    decreases n,
{
    if n <= 0 {
        Seq::empty()
    } else {
        let rest = segment_bucket(segments, fixups, n - 1, s);
        if spec_segment_for_address(segments, fixups[n - 1].address, POINTER_SIZE) == Ok::<
            int,
            ImageError,
        >(s) {
            rest.push(fixups[n - 1])
        } else {
            rest
        }
    }
}

/// The fixups of segment `s`.
pub open spec fn bucket_of(segments: Seq<OutputSegment>, fixups: Seq<ChainedFixup>, s: int) -> Seq<ChainedFixup> {
    segment_bucket(segments, fixups, fixups.len() as int, s)
}

/// Whether every segment's fixups can be chained.
pub open spec fn buckets_valid(segments: Seq<OutputSegment>, fixups: Seq<ChainedFixup>, upto: int) -> bool {
    forall|s: int|
        0 <= s < upto && bucket_of(segments, fixups, s).len() > 0 ==> segment_fixups_valid(
            segments[s].mem_offset,
            segments[s].mem_size,
            #[trigger] bucket_of(segments, fixups, s),
        )
}

/// Whether `plans` are the chains of exactly the segments below `upto` that have fixups, in
/// segment order.
pub open spec fn plans_cover(
    plans: Seq<SegmentChainedFixups>,
    segments: Seq<OutputSegment>,
    fixups: Seq<ChainedFixup>,
    upto: int,
) -> bool {
    &&& forall|k: int|
        0 <= k < plans.len() ==> {
            let s = (#[trigger] plans[k]).segment_index as int;
            &&& 0 <= s < upto
            &&& bucket_of(segments, fixups, s).len() > 0
            &&& is_segment_plan(plans[k], plans[k].segment_index, segments[s].mem_offset, bucket_of(segments, fixups, s))
        }
    &&& forall|k1: int, k2: int|
        0 <= k1 < k2 < plans.len() ==> (#[trigger] plans[k1]).segment_index < (#[trigger] plans[k2]).segment_index
    &&& forall|s: int|
        0 <= s < upto && #[trigger] bucket_of(segments, fixups, s).len() > 0 ==> exists|k: int|
            0 <= k < plans.len() && (#[trigger] plans[k]).segment_index == s
}

/// Gathers the fixups of the image into the chains of their segments: a bind for each import's
/// slot, which must lie in `__got` or `__thread_ptrs` by its kind, then `others` (local rebases,
/// data-pointer binds, GOT-slot rebases and selector rebases); each goes to the first segment
/// that holds its pointer, and each segment with fixups gets its chains.
pub fn chained_fixups(
    segments: &[OutputSegment],
    got: SectionRange,
    tlvp: SectionRange,
    imports: &[ImportedSymbol],
    others: &[ChainedFixup],
) -> (r: Result<ChainedFixups, FixupCollectionError>)
    requires
        got.mem_offset + got.mem_size <= u64::MAX,
        tlvp.mem_offset + tlvp.mem_size <= u64::MAX,
    ensures
        ({
            let bindings = imports@.map_values(|i: ImportedSymbol| i.binding);
            let all = all_fixups(bindings, others@);
            match first_import_error(segments@, bindings, got, tlvp, bindings.len() as int) {
                Some(e) => r == Err::<ChainedFixups, FixupCollectionError>(e),
                None => match first_placement_error(segments@, others@, others@.len() as int) {
                    Some(e) => r == Err::<ChainedFixups, FixupCollectionError>(
                        FixupCollectionError::Image(e),
                    ),
                    None => {
                        &&& r is Ok <==> buckets_valid(segments@, all, segments@.len() as int)
                        &&& r matches Ok(c) ==> plans_cover(c.segments@, segments@, all, segments@.len() as int)
                        &&& r matches Err(e) ==> e is Chain
                    },
                },
            }
        }),
{
    let ghost bindings = imports@.map_values(|i: ImportedSymbol| i.binding);
    let mut all: Vec<ChainedFixup> = Vec::new();
    let mut segment_of: Vec<usize> = Vec::new();
    let mut k: usize = 0;
    while k < imports.len()
        invariant
            0 <= k <= imports@.len(),
            bindings == imports@.map_values(|i: ImportedSymbol| i.binding),
            got.mem_offset + got.mem_size <= u64::MAX,
            tlvp.mem_offset + tlvp.mem_size <= u64::MAX,
            first_import_error(segments@, bindings, got, tlvp, k as int) is None,
            all@ == Seq::new(k as nat, |i: int| import_bind(i, bindings[i])),
            segment_of@.len() == k,
            forall|j: int|
                0 <= j < k ==> spec_segment_for_address(segments@, (#[trigger] all@[j]).address, POINTER_SIZE)
                    == Ok::<int, ImageError>(segment_of@[j] as int),
        decreases imports@.len() - k,
    {
        let binding = imports[k].binding;
        assert(binding == bindings[k as int]);
        let (address, range, outside) = match binding {
            ImportedSymbolBinding::Got { got_address, .. } => (
                got_address,
                got,
                FixupCollectionError::BindOutsideGot,
            ),
            ImportedSymbolBinding::Tlvp { tlvp_address } => (
                tlvp_address,
                tlvp,
                FixupCollectionError::BindOutsideTlvp,
            ),
        };
        if address < range.mem_offset || address > u64::MAX - POINTER_SIZE || address + POINTER_SIZE
            > range.mem_offset + range.mem_size {
            proof {
                assert(import_error(segments@, bindings[k as int], got, tlvp) == Some(outside));
                lemma_import_error_stays(segments@, bindings, got, tlvp, k + 1, bindings.len() as int);
            }
            return Err(outside);
        }
        let s = match segment_for_address(segments, address, POINTER_SIZE) {
            Err(e) => {
                proof {
                    assert(import_error(segments@, bindings[k as int], got, tlvp) == Some(
                        FixupCollectionError::Image(e),
                    ));
                    lemma_import_error_stays(segments@, bindings, got, tlvp, k + 1, bindings.len() as int);
                }
                return Err(FixupCollectionError::Image(e));
            },
            Ok(s) => s,
        };
        let fixup = ChainedFixup { address, kind: ChainedFixupKind::Bind { import_index: k, addend: 0 } };
        assert(fixup == import_bind(k as int, bindings[k as int]));
        all.push(fixup);
        segment_of.push(s);
        assert(all@ =~= Seq::new((k + 1) as nat, |i: int| import_bind(i, bindings[i])));
        k = k + 1;
    }
    let ghost imported = all@;
    let mut j: usize = 0;
    while j < others.len()
        invariant
            0 <= j <= others@.len(),
            bindings == imports@.map_values(|i: ImportedSymbol| i.binding),
            imported == Seq::new(bindings.len(), |i: int| import_bind(i, bindings[i])),
            first_import_error(segments@, bindings, got, tlvp, bindings.len() as int) is None,
            first_placement_error(segments@, others@, j as int) is None,
            all@ == imported + others@.subrange(0, j as int),
            segment_of@.len() == all@.len(),
            forall|x: int|
                0 <= x < all@.len() ==> spec_segment_for_address(segments@, (#[trigger] all@[x]).address, POINTER_SIZE)
                    == Ok::<int, ImageError>(segment_of@[x] as int),
        decreases others@.len() - j,
    {
        let fixup = others[j];
        let s = match segment_for_address(segments, fixup.address, POINTER_SIZE) {
            Err(e) => {
                proof {
                    lemma_placement_error_stays(segments@, others@, j + 1, others@.len() as int);
                }
                return Err(FixupCollectionError::Image(e));
            },
            Ok(s) => s,
        };
        all.push(fixup);
        segment_of.push(s);
        assert(all@ =~= imported + others@.subrange(0, j + 1));
        j = j + 1;
    }
    assert(others@.subrange(0, others@.len() as int) =~= others@);
    let ghost everything = all@;
    assert(everything == all_fixups(bindings, others@));
    let mut plans: Vec<SegmentChainedFixups> = Vec::new();
    let mut s: usize = 0;
    while s < segments.len()
        invariant
            0 <= s <= segments@.len(),
            everything == all@,
            bindings == imports@.map_values(|i: ImportedSymbol| i.binding),
            everything == all_fixups(bindings, others@),
            first_import_error(segments@, bindings, got, tlvp, bindings.len() as int) is None,
            first_placement_error(segments@, others@, others@.len() as int) is None,
            segment_of@.len() == all@.len(),
            forall|x: int|
                0 <= x < all@.len() ==> spec_segment_for_address(segments@, (#[trigger] all@[x]).address, POINTER_SIZE)
                    == Ok::<int, ImageError>(segment_of@[x] as int),
            buckets_valid(segments@, everything, s as int),
            plans_cover(plans@, segments@, everything, s as int),
        decreases segments@.len() - s,
    {
        let mut bucket: Vec<ChainedFixup> = Vec::new();
        let mut x: usize = 0;
        while x < all.len()
            invariant
                0 <= x <= all@.len(),
                segment_of@.len() == all@.len(),
                forall|y: int|
                    0 <= y < all@.len() ==> spec_segment_for_address(
                        segments@,
                        (#[trigger] all@[y]).address,
                        POINTER_SIZE,
                    ) == Ok::<int, ImageError>(segment_of@[y] as int),
                bucket@ == segment_bucket(segments@, all@, x as int, s as int),
            decreases all@.len() - x,
        {
            if segment_of[x] == s {
                bucket.push(all[x]);
            }
            x = x + 1;
        }
        assert(bucket@ == bucket_of(segments@, everything, s as int));
        if bucket.len() > 0 {
            let segment = segments[s];
            let ghost fixups = bucket@;
            match plan_segment_chained_fixups(s, segment.mem_offset, segment.mem_size, bucket) {
                Err(e) => {
                    proof {
                        assert(!segment_fixups_valid(
                            segments@[s as int].mem_offset,
                            segments@[s as int].mem_size,
                            bucket_of(segments@, everything, s as int),
                        ));
                        assert(!buckets_valid(segments@, everything, segments@.len() as int));
                    }
                    return Err(FixupCollectionError::Chain(e));
                },
                Ok(plan) => {
                    let ghost before = plans@;
                    plans.push(plan);
                    proof {
                        assert forall|t: int|
                            0 <= t < s + 1 && #[trigger] bucket_of(segments@, everything, t).len() > 0 implies exists|k: int|
                            0 <= k < plans@.len() && (#[trigger] plans@[k]).segment_index == t by {
                            if t == s {
                                assert(plans@[before.len() as int].segment_index == t);
                            } else {
                                let k = choose|k: int| 0 <= k < before.len() && (#[trigger] before[k]).segment_index == t;
                                assert(plans@[k] == before[k]);
                            }
                        }
                    }
                },
            }
        }
        s = s + 1;
    }
    Ok(ChainedFixups { segments: plans })
}

/// Once the first `k` imports hold a refused slot, the first `n` are refused for it.
proof fn lemma_import_error_stays(
    segments: Seq<OutputSegment>,
    bindings: Seq<ImportedSymbolBinding>,
    got: SectionRange,
    tlvp: SectionRange,
    k: int,
    n: int,
)
    requires
        0 <= k <= n,
        first_import_error(segments, bindings, got, tlvp, k) is Some,
    ensures
        first_import_error(segments, bindings, got, tlvp, n) == first_import_error(
            segments,
            bindings,
            got,
            tlvp,
            k,
        ),
    decreases n - k,
{
    if n > k {
        lemma_import_error_stays(segments, bindings, got, tlvp, k, n - 1);
    }
}

/// Once the first `k` fixups hold a misplaced one, the first `n` are refused for it.
proof fn lemma_placement_error_stays(segments: Seq<OutputSegment>, fixups: Seq<ChainedFixup>, k: int, n: int)
    requires
        0 <= k <= n,
        first_placement_error(segments, fixups, k) is Some,
    ensures
        first_placement_error(segments, fixups, n) == first_placement_error(segments, fixups, k),
    decreases n - k,
{
    if n > k {
        lemma_placement_error_stays(segments, fixups, k, n - 1);
    }
}

} // verus!
