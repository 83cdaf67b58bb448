//! The space the file header and the load commands take, reserved before any address is known:
//! one command per segment with its section headers, the entry point and dynamic linker of an
//! executable or the identity of a dylib, the run paths, one command per imported library, and
//! the fixed link-edit commands.
use vstd::prelude::*;
use crate::headers::{
    section_header_bytes, section_headers_bytes, segment_command_bytes, segment_commands_bytes,
    SegmentCommandInfo, BUILD_VERSION_COMMAND_SIZE, ENTRY_POINT_COMMAND_SIZE, LINKEDIT_DATA_COMMAND_SIZE,
    MACH_HEADER_SIZE, SECTION_HEADER_SIZE, SEGMENT_COMMAND_SIZE, SYMTAB_COMMAND_SIZE,
};
use crate::load_commands::{
    load_dylib_command_size, round_up8, rpath_command_size, DYLIB_COMMAND_SIZE,
    DYLINKER_COMMAND_SIZE, RPATH_COMMAND_SIZE, UUID_COMMAND_SIZE,
};

verus! {

/// The length of the dynamic linker's path, `/usr/lib/dyld`.
pub const DYLINKER_PATH_LEN: usize = 13;

/// What the header reservation depends on: the kind of output, the number of sections of each
/// active segment, the dylib's install name, the run paths and the install names of the imported
/// libraries.
#[derive(Debug)]
pub struct HeaderSizeInputs {
    pub is_executable: bool,
    pub is_shared_object: bool,
    pub needs_dynsym: bool,
    pub has_platform_version: bool,
    pub segment_section_counts: Vec<usize>,
    pub install_name: Vec<u8>,
    pub rpaths: Vec<Vec<u8>>,
    pub imported_install_names: Vec<Vec<u8>>,
}

/// The reservation: the size of the file header, the size of each load command in order, their
/// total, and the sizes of the imported libraries' commands.
#[derive(Debug, PartialEq, Eq)]
pub struct HeaderSizes {
    pub file_header_size: u64,
    pub load_command_sizes: Vec<u64>,
    pub load_commands_size: u64,
    pub load_dylib_command_sizes: Vec<usize>,
}

/// The size of a dylib command naming a path of `len` bytes.
pub open spec fn dylib_command_size(len: int) -> int {
    round_up8(DYLIB_COMMAND_SIZE + len + 1)
}

/// The size of each load command, in the order the writer emits them.
pub open spec fn spec_load_command_sizes(inputs: HeaderSizeInputs) -> Seq<int> {
    let counts = inputs.segment_section_counts@;
    let rpaths = inputs.rpaths@;
    let imported = inputs.imported_install_names@;
    (if inputs.is_executable {
        seq![SEGMENT_COMMAND_SIZE as int]
    } else {
        Seq::empty()
    }) + Seq::new(counts.len(), |i: int| SEGMENT_COMMAND_SIZE + SECTION_HEADER_SIZE * counts[i]) + (
    if inputs.is_executable {
        seq![ENTRY_POINT_COMMAND_SIZE as int, round_up8(DYLINKER_COMMAND_SIZE + DYLINKER_PATH_LEN)]
    } else if inputs.is_shared_object {
        seq![dylib_command_size(inputs.install_name@.len() as int)]
    } else {
        Seq::empty()
    }) + Seq::new(rpaths.len(), |i: int| round_up8(RPATH_COMMAND_SIZE + rpaths[i]@.len() + 1))
        + Seq::new(imported.len(), |i: int| dylib_command_size(imported[i]@.len() as int))
        + seq![LINKEDIT_DATA_COMMAND_SIZE as int] + (if inputs.needs_dynsym {
        seq![LINKEDIT_DATA_COMMAND_SIZE as int]
    } else {
        Seq::empty()
    }) + seq![SYMTAB_COMMAND_SIZE as int, LINKEDIT_DATA_COMMAND_SIZE as int, UUID_COMMAND_SIZE as int]
        + (if inputs.has_platform_version {
        seq![BUILD_VERSION_COMMAND_SIZE as int]
    } else {
        Seq::empty()
    })
}

/// The sizes as integers.
pub open spec fn ints(sizes: Seq<u64>) -> Seq<int> {
    sizes.map_values(|v: u64| v as int)
}

/// The sum of the first `n` sizes.
pub open spec fn sum_prefix(sizes: Seq<int>, n: int) -> int
    decreases n,
{
    if n <= 0 {
        0
    } else {
        sum_prefix(sizes, n - 1) + sizes[n - 1]
    }
}

/// Whether every path fits the size arithmetic.
pub open spec fn paths_fit(paths: Seq<Vec<u8>>) -> bool {
    forall|i: int| 0 <= i < paths.len() ==> (#[trigger] paths[i])@.len() + 64 <= usize::MAX
}

/// Reserves the file header and the load commands of the output.
pub fn allocate_header_sizes(inputs: &HeaderSizeInputs) -> (r: HeaderSizes)
    requires
        forall|i: int|
            0 <= i < inputs.segment_section_counts@.len() ==> SEGMENT_COMMAND_SIZE + SECTION_HEADER_SIZE
                * (#[trigger] inputs.segment_section_counts@[i]) <= usize::MAX,
        inputs.install_name@.len() + 64 <= usize::MAX,
        paths_fit(inputs.rpaths@),
        paths_fit(inputs.imported_install_names@),
        sum_prefix(spec_load_command_sizes(*inputs), spec_load_command_sizes(*inputs).len() as int)
            <= u64::MAX,
    ensures
        r.file_header_size == MACH_HEADER_SIZE,
        r.load_command_sizes@.len() == spec_load_command_sizes(*inputs).len(),
        forall|i: int|
            0 <= i < r.load_command_sizes@.len() ==> r.load_command_sizes@[i] as int
                == #[trigger] spec_load_command_sizes(*inputs)[i],
        r.load_commands_size == sum_prefix(
            spec_load_command_sizes(*inputs),
            spec_load_command_sizes(*inputs).len() as int,
        ),
        r.load_dylib_command_sizes@.len() == inputs.imported_install_names@.len(),
        forall|i: int|
            0 <= i < r.load_dylib_command_sizes@.len() ==> r.load_dylib_command_sizes@[i] as int
                == dylib_command_size((#[trigger] inputs.imported_install_names@[i])@.len() as int),
{
    let ghost expected = spec_load_command_sizes(*inputs);
    let ghost counts = inputs.segment_section_counts@;
    let ghost rpaths = inputs.rpaths@;
    let ghost imported = inputs.imported_install_names@;
    let ghost a = if inputs.is_executable {
        seq![SEGMENT_COMMAND_SIZE as int]
    } else {
        Seq::<int>::empty()
    };
    let ghost b = Seq::new(counts.len(), |i: int| SEGMENT_COMMAND_SIZE + SECTION_HEADER_SIZE * counts[i]);
    let ghost c = if inputs.is_executable {
        seq![ENTRY_POINT_COMMAND_SIZE as int, round_up8(DYLINKER_COMMAND_SIZE + DYLINKER_PATH_LEN)]
    } else if inputs.is_shared_object {
        seq![dylib_command_size(inputs.install_name@.len() as int)]
    } else {
        Seq::<int>::empty()
    };
    let ghost d = Seq::new(rpaths.len(), |i: int| round_up8(RPATH_COMMAND_SIZE + rpaths[i]@.len() + 1));
    let ghost e = Seq::new(imported.len(), |i: int| dylib_command_size(imported[i]@.len() as int));
    let mut sizes: Vec<u64> = Vec::new();
    if inputs.is_executable {
        sizes.push(SEGMENT_COMMAND_SIZE as u64);
    }
    assert(ints(sizes@) =~= a);
    let mut i: usize = 0;
    while i < inputs.segment_section_counts.len()
        invariant
            0 <= i <= counts.len(),
            counts == inputs.segment_section_counts@,
            b == Seq::new(counts.len(), |i: int| SEGMENT_COMMAND_SIZE + SECTION_HEADER_SIZE * counts[i]),
            forall|k: int|
                0 <= k < counts.len() ==> SEGMENT_COMMAND_SIZE + SECTION_HEADER_SIZE * (#[trigger] counts[k])
                    <= usize::MAX,
            ints(sizes@) =~= a + b.take(i as int),
        decreases counts.len() - i,
    {
        let count = inputs.segment_section_counts[i];
        let ghost before = sizes@;
        sizes.push((SEGMENT_COMMAND_SIZE + SECTION_HEADER_SIZE * count) as u64);
        assert(ints(sizes@) =~= ints(before).push(b[i as int]));
        assert(b.take(i + 1) =~= b.take(i as int).push(b[i as int]));
        i = i + 1;
    }
    assert(b.take(counts.len() as int) =~= b);
    if inputs.is_executable {
        sizes.push(ENTRY_POINT_COMMAND_SIZE as u64);
        sizes.push(32);
    } else if inputs.is_shared_object {
        sizes.push(load_dylib_command_size(inputs.install_name.as_slice()) as u64);
    }
    assert(round_up8(DYLINKER_COMMAND_SIZE + DYLINKER_PATH_LEN) == 32);
    assert(ints(sizes@) =~= a + b + c);
    let mut j: usize = 0;
    while j < inputs.rpaths.len()
        invariant
            0 <= j <= rpaths.len(),
            rpaths == inputs.rpaths@,
            d == Seq::new(rpaths.len(), |i: int| round_up8(RPATH_COMMAND_SIZE + rpaths[i]@.len() + 1)),
            paths_fit(rpaths),
            ints(sizes@) =~= a + b + c + d.take(j as int),
        decreases rpaths.len() - j,
    {
        let size = rpath_command_size(inputs.rpaths[j].as_slice());
        let ghost before = sizes@;
        sizes.push(size as u64);
        assert(ints(sizes@) =~= ints(before).push(d[j as int]));
        assert(d.take(j + 1) =~= d.take(j as int).push(d[j as int]));
        j = j + 1;
    }
    assert(d.take(rpaths.len() as int) =~= d);
    let mut dylib_sizes: Vec<usize> = Vec::new();
    let mut k: usize = 0;
    while k < inputs.imported_install_names.len()
        invariant
            0 <= k <= imported.len(),
            imported == inputs.imported_install_names@,
            e == Seq::new(imported.len(), |i: int| dylib_command_size(imported[i]@.len() as int)),
            paths_fit(imported),
            ints(sizes@) =~= a + b + c + d + e.take(k as int),
            dylib_sizes@.len() == k,
            forall|x: int| 0 <= x < k ==> dylib_sizes@[x] as int == e[x],
        decreases imported.len() - k,
    {
        let size = load_dylib_command_size(inputs.imported_install_names[k].as_slice());
        let ghost before = sizes@;
        dylib_sizes.push(size);
        sizes.push(size as u64);
        assert(ints(sizes@) =~= ints(before).push(e[k as int]));
        assert(e.take(k + 1) =~= e.take(k as int).push(e[k as int]));
        k = k + 1;
    }
    assert(e.take(imported.len() as int) =~= e);
    assert forall|x: int| 0 <= x < dylib_sizes@.len() implies dylib_sizes@[x] as int == dylib_command_size(
        (#[trigger] inputs.imported_install_names@[x])@.len() as int,
    ) by {
        assert(dylib_sizes@[x] as int == e[x]);
    }
    let ghost before_tail = sizes@;
    sizes.push(LINKEDIT_DATA_COMMAND_SIZE as u64);
    if inputs.needs_dynsym {
        sizes.push(LINKEDIT_DATA_COMMAND_SIZE as u64);
    }
    sizes.push(SYMTAB_COMMAND_SIZE as u64);
    sizes.push(LINKEDIT_DATA_COMMAND_SIZE as u64);
    sizes.push(UUID_COMMAND_SIZE as u64);
    if inputs.has_platform_version {
        sizes.push(BUILD_VERSION_COMMAND_SIZE as u64);
    }
    assert(ints(sizes@) =~= expected);
    assert forall|x: int| 0 <= x < sizes@.len() implies sizes@[x] as int == #[trigger] expected[x] by {
        assert(ints(sizes@)[x] == sizes@[x] as int);
    }
    let mut total: u64 = 0;
    let mut n: usize = 0;
    while n < sizes.len()
        invariant
            0 <= n <= sizes@.len(),
            sizes@.len() == expected.len(),
            forall|x: int| 0 <= x < sizes@.len() ==> sizes@[x] as int == #[trigger] expected[x],
            sum_prefix(expected, expected.len() as int) <= u64::MAX,
            total as int == sum_prefix(expected, n as int),
        decreases sizes@.len() - n,
    {
        proof {
            lemma_sum_prefix_grows(expected, n + 1, expected.len() as int);
        }
        total = total + sizes[n];
        n = n + 1;
    }
    HeaderSizes {
        file_header_size: MACH_HEADER_SIZE as u64,
        load_command_sizes: sizes,
        load_commands_size: total,
        load_dylib_command_sizes: dylib_sizes,
    }
}

/// A sum of sizes only grows as more sizes are added.
proof fn lemma_sum_prefix_grows(sizes: Seq<int>, k: int, n: int)
    requires
        0 <= k <= n <= sizes.len(),
        forall|i: int| 0 <= i < sizes.len() ==> sizes[i] >= 0,
    ensures
        sum_prefix(sizes, k) <= sum_prefix(sizes, n),
    decreases n - k,
{
    if n > k {
        lemma_sum_prefix_grows(sizes, k, n - 1);
    }
}

/// The load command of a segment is a fixed 72 bytes.
proof fn lemma_segment_command_len(
    name: Seq<u8>,
    protection: u32,
    file_offset: u64,
    file_size: u64,
    mem_offset: u64,
    mem_size: u64,
    section_count: int,
    flags: u32,
)
    requires
        name.len() == 16,
    ensures
        segment_command_bytes(name, protection, file_offset, file_size, mem_offset, mem_size, section_count, flags).len()
            == SEGMENT_COMMAND_SIZE,
{
    reveal(segment_command_bytes);
}

/// Each section header is a fixed 80 bytes.
proof fn lemma_section_headers_len(segment: crate::segment::SegmentName, sections: Seq<crate::headers::SectionHeaderInfo>, n: int)
    requires
        0 <= n <= sections.len(),
        forall|i: int| 0 <= i < sections.len() ==> (#[trigger] sections[i]).name@.len() <= 16,
    ensures
        section_headers_bytes(segment, sections, n).len() == SECTION_HEADER_SIZE * n,
    decreases n,
{
    if n > 0 {
        lemma_section_headers_len(segment, sections, n - 1);
        reveal(section_header_bytes);
        assert(section_header_bytes(segment, sections[n - 1]).len() == SECTION_HEADER_SIZE);
    }
}

/// What the header reservation sets aside for the segment commands is exactly what the writer
/// writes for them: with the same executable flag and one section count per segment, the first
/// `n` segments' commands take the sum of their reserved sizes, `__PAGEZERO` included.
#[verifier::spinoff_prover]
pub proof fn lemma_segment_reservation_matches_writer(
    inputs: HeaderSizeInputs,
    segments: Seq<SegmentCommandInfo>,
    n: int,
)
    requires
        0 <= n <= segments.len(),
        segments.len() == inputs.segment_section_counts@.len(),
        forall|i: int|
            0 <= i < segments.len() ==> (#[trigger] segments[i]).sections@.len()
                == inputs.segment_section_counts@[i],
        forall|i: int, j: int|
            0 <= i < segments.len() && 0 <= j < segments[i].sections@.len()
                ==> (#[trigger] segments[i].sections@[j]).name@.len() <= 16,
    ensures
        segment_commands_bytes(inputs.is_executable, segments, n).len() == sum_prefix(
            spec_load_command_sizes(inputs),
            (if inputs.is_executable {
                1int
            } else {
                0int
            }) + n,
        ),
    decreases n,
{
    let expected = spec_load_command_sizes(inputs);
    let counts = inputs.segment_section_counts@;
    let a = if inputs.is_executable {
        seq![SEGMENT_COMMAND_SIZE as int]
    } else {
        Seq::<int>::empty()
    };
    let b = Seq::new(counts.len(), |i: int| SEGMENT_COMMAND_SIZE + SECTION_HEADER_SIZE * counts[i]);
    let off = a.len() as int;
    assert forall|x: int| 0 <= x < off + counts.len() implies #[trigger] expected[x] == (a + b)[x] by {
        assert(expected =~= (a + b) + expected.subrange(off + counts.len(), expected.len() as int));
    }
    if n == 0 {
        if inputs.is_executable {
            lemma_segment_command_len(
                crate::segment::SegmentName::spec_pagezero(),
                0,
                0,
                0,
                0,
                crate::headers::MACHO_START_MEM_ADDRESS,
                0,
                0,
            );
            assert(expected[0] == (a + b)[0]);
            assert((a + b)[0] == SEGMENT_COMMAND_SIZE);
            assert(sum_prefix(expected, 1) == sum_prefix(expected, 0) + expected[0]);
        } else {
            assert(segment_commands_bytes(inputs.is_executable, segments, 0) == Seq::<u8>::empty());
        }
    } else {
        lemma_segment_reservation_matches_writer(inputs, segments, n - 1);
        let s = segments[n - 1];
        lemma_segment_command_len(
            s.name@,
            s.protection,
            s.file_offset,
            s.file_size,
            s.mem_offset,
            s.mem_size,
            s.sections@.len() as int,
            s.flags,
        );
        lemma_section_headers_len(s.name, s.sections@, s.sections@.len() as int);
        let previous = segment_commands_bytes(inputs.is_executable, segments, n - 1);
        let command = segment_command_bytes(
            s.name@,
            s.protection,
            s.file_offset,
            s.file_size,
            s.mem_offset,
            s.mem_size,
            s.sections@.len() as int,
            s.flags,
        );
        let headers = section_headers_bytes(s.name, s.sections@, s.sections@.len() as int);
        assert(segment_commands_bytes(inputs.is_executable, segments, n) == previous + command + headers);
        assert(command.len() == SEGMENT_COMMAND_SIZE);
        assert(headers.len() == SECTION_HEADER_SIZE * s.sections@.len());
        assert(expected[off + n - 1] == (a + b)[off + n - 1]);
        assert((a + b)[off + n - 1] == b[n - 1]);
        assert(b[n - 1] == SEGMENT_COMMAND_SIZE + SECTION_HEADER_SIZE * counts[n - 1]);
        assert(sum_prefix(expected, off + n) == sum_prefix(expected, off + n - 1) + expected[off + n - 1]);
    }
}

} // verus!
