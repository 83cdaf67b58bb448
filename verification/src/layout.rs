//! Layout-time decisions of the Mach-O back end: allocating GOT, TLV-pointer and stub slots,
//! ordering sections into their segments, numbering loaded libraries, and the local GOT slots
//! dyld must rebase.
use vstd::prelude::*;
use crate::bytes::{copy_zero_padded, zeros};
use crate::chained_fixups::{ChainedFixup, ChainedFixupKind};
use crate::segment::{bytes_equal, SegmentName};

verus! {

/// The size of a GOT or TLV-pointer slot.
pub const GOT_ENTRY_SIZE: u64 = 8;
/// The size of a dyld symbol stub.
pub const PLT_ENTRY_SIZE: u64 = 12;

/// The next free address of each synthetic slot table: the GOT, the TLV pointers, and the
/// stubs.
#[derive(Debug, Clone, Copy, PartialEq, Eq)]
pub struct SlotOffsets {
    pub got: u64,
    pub tlvp: u64,
    pub plt_got: u64,
}

/// Allocates a GOT slot at the next free GOT address, which must be a real address.
pub fn allocate_got(memory_offsets: &mut SlotOffsets) -> (r: u64)
    requires
        old(memory_offsets).got != 0,
        old(memory_offsets).got + GOT_ENTRY_SIZE <= u64::MAX,
    ensures
        r == old(memory_offsets).got,
        r != 0,
        *final(memory_offsets) == (SlotOffsets { got: (r + GOT_ENTRY_SIZE) as u64, ..*old(memory_offsets) }),
{
    let got_address = memory_offsets.got;
    memory_offsets.got = got_address + GOT_ENTRY_SIZE;
    got_address
}

/// Allocates a TLV-pointer slot at the next free TLV-pointer address, which must be a real
/// address.
pub fn allocate_tlvp(memory_offsets: &mut SlotOffsets) -> (r: u64)
    requires
        old(memory_offsets).tlvp != 0,
        old(memory_offsets).tlvp + GOT_ENTRY_SIZE <= u64::MAX,
    ensures
        r == old(memory_offsets).tlvp,
        r != 0,
        *final(memory_offsets) == (SlotOffsets { tlvp: (r + GOT_ENTRY_SIZE) as u64, ..*old(memory_offsets) }),
{
    let tlvp_address = memory_offsets.tlvp;
    memory_offsets.tlvp = tlvp_address + GOT_ENTRY_SIZE;
    tlvp_address
}

/// Allocates a stub at the next free stub address, which must be a real address.
pub fn allocate_plt(memory_offsets: &mut SlotOffsets) -> (r: u64)
    requires
        old(memory_offsets).plt_got != 0,
        old(memory_offsets).plt_got + PLT_ENTRY_SIZE <= u64::MAX,
    ensures
        r == old(memory_offsets).plt_got,
        r != 0,
        *final(memory_offsets) == (SlotOffsets { plt_got: (r + PLT_ENTRY_SIZE) as u64, ..*old(memory_offsets) }),
{
    let plt_address = memory_offsets.plt_got;
    memory_offsets.plt_got = plt_address + PLT_ENTRY_SIZE;
    plt_address
}

// ---------------------------------------------------------------------------------------------
// Segment order
// ---------------------------------------------------------------------------------------------

/// An output section: its id, the segment it belongs to (none for a section without a Mach-O
/// identity), and its section name.
#[derive(Debug)]
pub struct OutputSectionIdentity {
    pub id: u32,
    pub segment: Option<SegmentName>,
    pub name: Vec<u8>,
}

/// The section belongs to `segment`.
pub open spec fn in_segment(section: OutputSectionIdentity, segment: SegmentName) -> bool {
    section.segment matches Some(s) && s@ == segment@
}

/// The ids of the first `n` sections that `keep` selects, in order.
pub open spec fn selected_ids(
    sections: Seq<OutputSectionIdentity>,
    keep: spec_fn(OutputSectionIdentity) -> bool,
    n: int,
) -> Seq<u32>
    decreases n,
{
    if n <= 0 {
        Seq::empty()
    } else {
        let prev = selected_ids(sections, keep, n - 1);
        if keep(sections[n - 1]) {
            prev.push(sections[n - 1].id)
        } else {
            prev
        }
    }
}

/// Whether the section belongs to `segment`.
fn belongs_to(section: &OutputSectionIdentity, segment: &SegmentName) -> (r: bool)
    ensures
        r == in_segment(*section, *segment),
{
    match &section.segment {
        Some(s) => s.same_as(segment),
        None => false,
    }
}

/// Appends to `order` every section of `segment`, in the order given.
pub fn add_sections_in_segment(
    order: &mut Vec<u32>,
    sections: &[OutputSectionIdentity],
    segment: SegmentName,
)
    ensures
        final(order)@ == old(order)@ + selected_ids(
            sections@,
            |s: OutputSectionIdentity| in_segment(s, segment),
            sections@.len() as int,
        ),
{
    let ghost keep = |s: OutputSectionIdentity| in_segment(s, segment);
    let mut i: usize = 0;
    while i < sections.len()
        invariant
            0 <= i <= sections@.len(),
            keep == (|s: OutputSectionIdentity| in_segment(s, segment)),
            order@ == old(order)@ + selected_ids(sections@, keep, i as int),
        decreases sections@.len() - i,
    {
        if belongs_to(&sections[i], &segment) {
            order.push(sections[i].id);
        }
        assert(order@ =~= old(order)@ + selected_ids(sections@, keep, i + 1));
        i = i + 1;
    }
}

/// Appends to `order` every section of `segment` named `section_name`, in the order given.
pub fn add_named_sections_in_segment(
    order: &mut Vec<u32>,
    sections: &[OutputSectionIdentity],
    segment: SegmentName,
    section_name: &[u8],
)
    ensures
        final(order)@ == old(order)@ + selected_ids(
            sections@,
            |s: OutputSectionIdentity| in_segment(s, segment) && s.name@ == section_name@,
            sections@.len() as int,
        ),
{
    let ghost keep = |s: OutputSectionIdentity| in_segment(s, segment) && s.name@ == section_name@;
    let mut i: usize = 0;
    while i < sections.len()
        invariant
            0 <= i <= sections@.len(),
            keep == (|s: OutputSectionIdentity| in_segment(s, segment) && s.name@ == section_name@),
            order@ == old(order)@ + selected_ids(sections@, keep, i as int),
        decreases sections@.len() - i,
    {
        if belongs_to(&sections[i], &segment) && bytes_equal(sections[i].name.as_slice(), section_name) {
            order.push(sections[i].id);
        }
        assert(order@ =~= old(order)@ + selected_ids(sections@, keep, i + 1));
        i = i + 1;
    }
}

/// Appends to `order` every section of `segment` except those named `excluded_section_name`,
/// in the order given.
pub fn add_sections_in_segment_except(
    order: &mut Vec<u32>,
    sections: &[OutputSectionIdentity],
    segment: SegmentName,
    excluded_section_name: &[u8],
)
    ensures
        final(order)@ == old(order)@ + selected_ids(
            sections@,
            |s: OutputSectionIdentity| in_segment(s, segment) && s.name@ != excluded_section_name@,
            sections@.len() as int,
        ),
{
    let ghost keep = |s: OutputSectionIdentity|
        in_segment(s, segment) && s.name@ != excluded_section_name@;
    let mut i: usize = 0;
    while i < sections.len()
        invariant
            0 <= i <= sections@.len(),
            keep == (|s: OutputSectionIdentity|
                in_segment(s, segment) && s.name@ != excluded_section_name@),
            order@ == old(order)@ + selected_ids(sections@, keep, i as int),
        decreases sections@.len() - i,
    {
        if belongs_to(&sections[i], &segment) && !bytes_equal(
            sections[i].name.as_slice(),
            excluded_section_name,
        ) {
            order.push(sections[i].id);
        }
        assert(order@ =~= old(order)@ + selected_ids(sections@, keep, i + 1));
        i = i + 1;
    }
}

/// One step of the output order: a segment opens, a segment closes, or a section is placed.
#[derive(Debug, Clone, Copy, PartialEq, Eq)]
pub enum OrderEvent {
    SegmentStart(u32),
    SegmentEnd(u32),
    Section(u32),
}

/// Whether section `id` gets a header, by `has_header`; ids past its end get none.
pub open spec fn gets_header(has_header: Seq<bool>, id: u32) -> bool {
    id < has_header.len() && has_header[id as int]
}

/// The scan of the first `n` events for `segment`: whether it is open, whether it has closed,
/// and the sections with headers seen while it was open.
pub open spec fn segment_scan(order: Seq<OrderEvent>, segment: u32, has_header: Seq<bool>, n: int) -> (
    bool,
    bool,
    Seq<u32>,
)
    decreases n,
{
    if n <= 0 {
        (false, false, Seq::empty())
    } else {
        let (open, closed, sections) = segment_scan(order, segment, has_header, n - 1);
        if closed {
            (open, closed, sections)
        } else {
            match order[n - 1] {
                OrderEvent::SegmentStart(s) => if s == segment {
                    (true, false, sections)
                } else {
                    (open, false, sections)
                },
                OrderEvent::SegmentEnd(s) => if s == segment && open {
                    (open, true, sections)
                } else {
                    (open, false, sections)
                },
                OrderEvent::Section(id) => if open && gets_header(has_header, id) {
                    (open, false, sections.push(id))
                } else {
                    (open, false, sections)
                },
            }
        }
    }
}

/// The sections of `segment` that get a header, in output order: those placed after the
/// segment opens and before it closes.
pub fn get_segment_sections(order: &[OrderEvent], segment: u32, has_header: &[bool]) -> (r: Vec<u32>)
    ensures
        r@ == segment_scan(order@, segment, has_header@, order@.len() as int).2,
{
    let mut open = false;
    let mut sections: Vec<u32> = Vec::new();
    let mut i: usize = 0;
    while i < order.len()
        invariant
            0 <= i <= order@.len(),
            segment_scan(order@, segment, has_header@, i as int) == (open, false, sections@),
        decreases order@.len() - i,
    {
        match order[i] {
            OrderEvent::SegmentStart(s) => {
                if s == segment {
                    open = true;
                }
            },
            OrderEvent::SegmentEnd(s) => {
                if s == segment && open {
                    proof {
                        lemma_segment_scan_closed(order@, segment, has_header@, i + 1, order@.len() as int);
                    }
                    return sections;
                }
            },
            OrderEvent::Section(id) => {
                if open && (id as usize) < has_header.len() && has_header[id as usize] {
                    sections.push(id);
                }
            },
        }
        i = i + 1;
    }
    sections
}

/// Once the segment has closed, later events change nothing.
proof fn lemma_segment_scan_closed(order: Seq<OrderEvent>, segment: u32, has_header: Seq<bool>, k: int, n: int)
    requires
        0 <= k <= n,
        segment_scan(order, segment, has_header, k).1,
    ensures
        segment_scan(order, segment, has_header, n) == segment_scan(order, segment, has_header, k),
    decreases n - k,
{
    if n > k {
        lemma_segment_scan_closed(order, segment, has_header, k, n - 1);
    }
}

/// The number of sections that get a header.
pub open spec fn header_count(has_header: Seq<bool>, n: int) -> int
    decreases n,
{
    if n <= 0 {
        0
    } else {
        header_count(has_header, n - 1) + if has_header[n - 1] {
            1int
        } else {
            0int
        }
    }
}

/// How many sections of a segment get a header, which sizes its load command.
pub fn count_sections_for_segment(has_header: &[bool]) -> (r: usize)
    ensures
        r == header_count(has_header@, has_header@.len() as int),
{
    let mut count: usize = 0;
    let mut i: usize = 0;
    while i < has_header.len()
        invariant
            0 <= i <= has_header@.len(),
            count == header_count(has_header@, i as int),
            count <= i,
        decreases has_header@.len() - i,
    {
        if has_header[i] {
            count = count + 1;
        }
        i = i + 1;
    }
    count
}

// ---------------------------------------------------------------------------------------------
// Library ordinals
// ---------------------------------------------------------------------------------------------

/// Why a dynamic library could not be numbered.
#[derive(Debug, Clone, Copy, PartialEq, Eq)]
pub enum LayoutError {
    /// More libraries are loaded than a one-byte ordinal can name.
    TooManyLibraries,
    /// A local GOT target has no final address.
    UnresolvedGotTarget,
    /// A local GOT target lies in a dead atom.
    DeadGotTarget,
    /// A local GOT target's address overflows.
    GotTargetOverflow,
    /// A local GOT target has no allocated slot.
    MissingGotSlot,
    /// The exports trie outgrew its allocation.
    ExportsTrieTooLarge,
}

/// `i` is the first loaded library named `install_name`.
pub open spec fn is_first_library(libraries: Seq<Vec<u8>>, install_name: Seq<u8>, i: int) -> bool {
    &&& 0 <= i < libraries.len()
    &&& libraries[i]@ == install_name
    &&& forall|j: int| 0 <= j < i ==> (#[trigger] libraries[j])@ != install_name
}

/// The ordinal by which dyld binds symbols of a library: one plus the position of the first
/// loaded library with the same install name, or none when no loaded library has it. Ordinals
/// are one byte.
pub fn create_dynamic_layout_ext(target_install_name: &[u8], loaded_libraries: &[Vec<u8>]) -> (r: Result<
    Option<u8>,
    LayoutError,
>)
    ensures
        (forall|i: int| 0 <= i < loaded_libraries@.len() ==> (#[trigger] loaded_libraries@[i])@
            != target_install_name@) ==> r == Ok::<Option<u8>, LayoutError>(None),
        forall|i: int|
            is_first_library(loaded_libraries@, target_install_name@, i) ==> if i + 1 <= u8::MAX {
                r == Ok::<Option<u8>, LayoutError>(Some((i + 1) as u8))
            } else {
                r == Err::<Option<u8>, LayoutError>(LayoutError::TooManyLibraries)
            },
{
    let mut i: usize = 0;
    while i < loaded_libraries.len()
        invariant
            0 <= i <= loaded_libraries@.len(),
            forall|j: int| 0 <= j < i ==> (#[trigger] loaded_libraries@[j])@ != target_install_name@,
        decreases loaded_libraries@.len() - i,
    {
        if bytes_equal(loaded_libraries[i].as_slice(), target_install_name) {
            assert(is_first_library(loaded_libraries@, target_install_name@, i as int));
            if i >= 255 {
                return Err(LayoutError::TooManyLibraries);
            }
            return Ok(Some((i + 1) as u8));
        }
        i = i + 1;
    }
    Ok(None)
}

// ---------------------------------------------------------------------------------------------
// Local GOT slots
// ---------------------------------------------------------------------------------------------

/// What the definition of a symbol reached through a local GOT slot provides.
#[derive(Debug, Clone, Copy, PartialEq, Eq)]
pub enum GotTargetDefinition {
    /// Defined by a dynamic library: the slot is bound, not rebased.
    Dynamic,
    /// A tentative definition, placed by the common allocator.
    Common { symbol_address: Option<u64>, got_address: Option<u64> },
    /// Defined in an input section: the section's output address and the symbol's offset
    /// within the section's output, when they exist.
    Section {
        section_address: Option<u64>,
        output_offset: Option<u64>,
        got_address: Option<u64>,
    },
}

/// The rebase dyld applies to a local GOT slot: the slot's address and its target.
pub open spec fn spec_local_got_rebase(definition: GotTargetDefinition) -> Result<
    Option<ChainedFixup>,
    LayoutError,
> {
    match definition {
        GotTargetDefinition::Dynamic => Ok(None),
        GotTargetDefinition::Common { symbol_address, got_address } => match symbol_address {
            None => Err(LayoutError::UnresolvedGotTarget),
            Some(target) => match got_address {
                None => Err(LayoutError::MissingGotSlot),
                Some(slot) => Ok(
                    Some(ChainedFixup { address: slot, kind: ChainedFixupKind::Rebase { target } }),
                ),
            },
        },
        GotTargetDefinition::Section { section_address, output_offset, got_address } => match section_address {
            None => Err(LayoutError::UnresolvedGotTarget),
            Some(base) => match output_offset {
                None => Err(LayoutError::DeadGotTarget),
                Some(offset) => if base + offset > u64::MAX {
                    Err(LayoutError::GotTargetOverflow)
                } else {
                    match got_address {
                        None => Err(LayoutError::MissingGotSlot),
                        Some(slot) => Ok(
                            Some(
                                ChainedFixup {
                                    address: slot,
                                    kind: ChainedFixupKind::Rebase { target: (base + offset) as u64 },
                                },
                            ),
                        ),
                    }
                },
            },
        },
    }
}

/// The rebase of the GOT slot of a locally defined symbol; none for a symbol of a dynamic
/// library, whose slot dyld binds.
pub fn local_got_rebase_for_symbol(definition: &GotTargetDefinition) -> (r: Result<
    Option<ChainedFixup>,
    LayoutError,
>)
    ensures
        r == spec_local_got_rebase(*definition),
{
    match *definition {
        GotTargetDefinition::Dynamic => Ok(None),
        GotTargetDefinition::Common { symbol_address, got_address } => {
            let target = match symbol_address {
                None => {
                    return Err(LayoutError::UnresolvedGotTarget);
                },
                Some(target) => target,
            };
            match got_address {
                None => Err(LayoutError::MissingGotSlot),
                Some(slot) => Ok(
                    Some(ChainedFixup { address: slot, kind: ChainedFixupKind::Rebase { target } }),
                ),
            }
        },
        GotTargetDefinition::Section { section_address, output_offset, got_address } => {
            let base = match section_address {
                None => {
                    return Err(LayoutError::UnresolvedGotTarget);
                },
                Some(base) => base,
            };
            let offset = match output_offset {
                None => {
                    return Err(LayoutError::DeadGotTarget);
                },
                Some(offset) => offset,
            };
            let target = match base.checked_add(offset) {
                None => {
                    return Err(LayoutError::GotTargetOverflow);
                },
                Some(target) => target,
            };
            match got_address {
                None => Err(LayoutError::MissingGotSlot),
                Some(slot) => Ok(
                    Some(ChainedFixup { address: slot, kind: ChainedFixupKind::Rebase { target } }),
                ),
            }
        },
    }
}

// ---------------------------------------------------------------------------------------------
// The epilogue
// ---------------------------------------------------------------------------------------------

/// Writes the parts of the final synthetic file: the exports trie at the start of its
/// allocation, zero-padded, and an all-zero `__unwind_info` reservation that is filled once every
/// function has its final address.
pub fn write_epilogue(exports_trie: &[u8], exports_out: &mut [u8], unwind_info: &mut [u8]) -> (r:
    Result<(), LayoutError>)
    ensures
        exports_trie@.len() > old(exports_out)@.len() ==> r == Err::<(), LayoutError>(
            LayoutError::ExportsTrieTooLarge,
        ) && final(exports_out)@ == old(exports_out)@ && final(unwind_info)@ == old(unwind_info)@,
        exports_trie@.len() <= old(exports_out)@.len() ==> r is Ok && final(exports_out)@
            == exports_trie@ + zeros(old(exports_out)@.len() - exports_trie@.len())
            && final(unwind_info)@ == zeros(old(unwind_info)@.len() as int),
{
    if exports_trie.len() > exports_out.len() {
        return Err(LayoutError::ExportsTrieTooLarge);
    }
    copy_zero_padded(exports_out, exports_trie);
    let empty: [u8; 0] = [];
    copy_zero_padded(unwind_info, empty.as_slice());
    assert(empty@ + zeros(old(unwind_info)@.len() as int) =~= zeros(old(unwind_info)@.len() as int));
    Ok(())
}

} // verus!
