//! The laid-out output image: where each segment lives in memory and in the file, the image
//! base, and the mapping from a virtual address to a file offset.
use vstd::prelude::*;
use crate::segment::SegmentName;

verus! {

/// One output segment: its name, its virtual range and the part of the file that backs it.
/// Memory past `file_size` is zero-fill.
#[derive(Clone, Copy, Debug)]
pub struct OutputSegment {
    pub name: SegmentName,
    pub mem_offset: u64,
    pub mem_size: u64,
    pub file_offset: usize,
    pub file_size: usize,
}

/// Why an address could not be placed in the image.
#[derive(Debug, Clone, Copy, PartialEq, Eq)]
pub enum ImageError {
    /// There is no `__TEXT` segment, so no image base.
    MissingTextSegment,
    /// The address range wraps around the address space.
    AddressOverflow,
    /// No output segment holds the whole range.
    OutsideOutputSegments,
    /// The file offset does not fit `usize`.
    FileOffsetOverflow,
    /// The range reaches into the segment's zero-fill tail.
    ZeroFill,
}

/// The end of a segment's backing bytes in the file.
pub open spec fn file_end(segment: OutputSegment) -> int {
    segment.file_offset + segment.file_size
}

/// Whether the file range of every segment can be computed in `usize`.
pub open spec fn segments_well_formed(segments: Seq<OutputSegment>) -> bool {
    forall|i: int| 0 <= i < segments.len() ==> file_end(#[trigger] segments[i]) <= usize::MAX
}

/// The position of the first segment named `__TEXT` at or after `from`.
pub open spec fn first_text_segment(segments: Seq<OutputSegment>, from: int) -> Option<int>
    decreases segments.len() - from,
{
    if from < 0 || from >= segments.len() {
        None
    } else if segments[from].name@ == SegmentName::spec_text() {
        Some(from)
    } else {
        first_text_segment(segments, from + 1)
    }
}

/// The image base: the address of the first `__TEXT` segment.
pub open spec fn spec_image_base(segments: Seq<OutputSegment>) -> Result<u64, ImageError> {
    match first_text_segment(segments, 0) {
        Some(i) => Ok(segments[i].mem_offset),
        None => Err(ImageError::MissingTextSegment),
    }
}

/// The address of the first `__TEXT` segment, the base that image-relative values count from.
pub fn image_base(segments: &[OutputSegment]) -> (r: Result<u64, ImageError>)
    ensures
        r == spec_image_base(segments@),
{
    let text = SegmentName::text();
    let mut i: usize = 0;
    while i < segments.len()
        invariant
            0 <= i <= segments@.len(),
            text@ == SegmentName::spec_text(),
            first_text_segment(segments@, 0) == first_text_segment(segments@, i as int),
        decreases segments@.len() - i,
    {
        if segments[i].name.same_as(&text) {
            return Ok(segments[i].mem_offset);
        }
        i = i + 1;
    }
    Err(ImageError::MissingTextSegment)
}

/// Whether `segment`'s virtual range holds `[address, end)`; the range's end saturates at the
/// top of the address space.
pub open spec fn segment_holds(segment: OutputSegment, address: u64, end: int) -> bool {
    let top = if segment.mem_offset + segment.mem_size > u64::MAX {
        u64::MAX as int
    } else {
        segment.mem_offset + segment.mem_size
    };
    address >= segment.mem_offset && end <= top
}

/// The position of the first segment at or after `from` that holds `[address, end)`.
pub open spec fn first_segment_holding(
    segments: Seq<OutputSegment>,
    address: u64,
    end: int,
    from: int,
) -> Option<int>
    decreases segments.len() - from,
{
    if from < 0 || from >= segments.len() {
        None
    } else if segment_holds(segments[from], address, end) {
        Some(from)
    } else {
        first_segment_holding(segments, address, end, from + 1)
    }
}

/// A found segment exists and holds the range.
pub proof fn lemma_first_segment_holding(
    segments: Seq<OutputSegment>,
    address: u64,
    end: int,
    from: int,
)
    ensures
        first_segment_holding(segments, address, end, from) matches Some(i) ==> from <= i
            < segments.len() && segment_holds(segments[i], address, end),
    decreases segments.len() - from,
{
    if 0 <= from < segments.len() && !segment_holds(segments[from], address, end) {
        lemma_first_segment_holding(segments, address, end, from + 1);
    }
}

/// The first output segment that holds `size` bytes at `address`.
pub open spec fn spec_segment_for_address(
    segments: Seq<OutputSegment>,
    address: u64,
    size: u64,
) -> Result<int, ImageError> {
    if address + size > u64::MAX {
        Err(ImageError::AddressOverflow)
    } else {
        match first_segment_holding(segments, address, address + size, 0) {
            Some(i) => Ok(i),
            None => Err(ImageError::OutsideOutputSegments),
        }
    }
}

/// The position of the first output segment that holds `size` bytes at `address`.
pub fn segment_for_address(segments: &[OutputSegment], address: u64, size: u64) -> (r: Result<
    usize,
    ImageError,
>)
    ensures
        match r {
            Ok(i) => spec_segment_for_address(segments@, address, size) == Ok::<int, ImageError>(
                i as int,
            ),
            Err(e) => spec_segment_for_address(segments@, address, size) == Err::<int, ImageError>(
                e,
            ),
        },
{
    if address > u64::MAX - size {
        return Err(ImageError::AddressOverflow);
    }
    let end = address + size;
    let mut i: usize = 0;
    while i < segments.len()
        invariant
            0 <= i <= segments@.len(),
            end == address + size,
            first_segment_holding(segments@, address, end as int, 0) == first_segment_holding(
                segments@,
                address,
                end as int,
                i as int,
            ),
        decreases segments@.len() - i,
    {
        let segment = segments[i];
        let top = segment.mem_offset.saturating_add(segment.mem_size);
        if address >= segment.mem_offset && end <= top {
            return Ok(i);
        }
        i = i + 1;
    }
    Err(ImageError::OutsideOutputSegments)
}

/// The file offset of `size` bytes at `address`: the address's offset within the first segment
/// that holds the range, past that segment's file offset, provided the bytes are backed by the
/// file rather than zero-fill.
pub open spec fn spec_file_offset_for_address(
    segments: Seq<OutputSegment>,
    address: u64,
    size: u64,
) -> Result<int, ImageError> {
    match spec_segment_for_address(segments, address, size) {
        Err(e) => Err(e),
        Ok(i) => {
            let offset = segments[i].file_offset + (address - segments[i].mem_offset);
            if offset > usize::MAX {
                Err(ImageError::FileOffsetOverflow)
            } else if offset + size > file_end(segments[i]) {
                Err(ImageError::ZeroFill)
            } else {
                Ok(offset)
            }
        },
    }
}

/// The file offset of `size` bytes at `address`.
pub fn file_offset_for_address(segments: &[OutputSegment], address: u64, size: usize) -> (r:
    Result<usize, ImageError>)
    requires
        segments_well_formed(segments@),
    ensures
        match r {
            Ok(o) => spec_file_offset_for_address(segments@, address, size as u64) == Ok::<
                int,
                ImageError,
            >(o as int),
            Err(e) => spec_file_offset_for_address(segments@, address, size as u64) == Err::<
                int,
                ImageError,
            >(e),
        },
{
    let i = segment_for_address(segments, address, size as u64)?;
    proof {
        lemma_first_segment_holding(segments@, address, address + size, 0);
    }
    let segment = segments[i];
    let delta = address - segment.mem_offset;
    if delta > (usize::MAX - segment.file_offset) as u64 {
        return Err(ImageError::FileOffsetOverflow);
    }
    let offset = segment.file_offset + delta as usize;
    let end = segment.file_offset + segment.file_size;
    if offset > end || size > end - offset {
        return Err(ImageError::ZeroFill);
    }
    Ok(offset)
}

/// A file offset that was found lies, with its `size` bytes, inside some segment's file range.
pub proof fn lemma_file_offset_in_file(segments: Seq<OutputSegment>, address: u64, size: u64)
    ensures
        spec_file_offset_for_address(segments, address, size) matches Ok(o) ==> exists|i: int|
            0 <= i < segments.len() && o + size <= file_end(#[trigger] segments[i]),
{
    if address + size <= u64::MAX {
        lemma_first_segment_holding(segments, address, address + size, 0);
    }
}

} // verus!
