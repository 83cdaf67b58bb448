//! Input sections classified by their type, attributes and segment, and the rejection of
//! already-linked indirect-symbol tables.
use vstd::prelude::*;
use crate::layout::GOT_ENTRY_SIZE;
use crate::segment::{padded_name, SegmentName};

verus! {

/// The bits of a section's flags that hold its type.
pub const SECTION_TYPE_MASK: u32 = 0xff;

/// An ordinary section.
pub const S_REGULAR: u32 = 0x0;

/// Non-lazy symbol pointers.
pub const S_NON_LAZY_SYMBOL_POINTERS: u32 = 0x6;

/// Lazy symbol pointers.
pub const S_LAZY_SYMBOL_POINTERS: u32 = 0x7;

/// Symbol stubs, whose size is in `reserved2`.
pub const S_SYMBOL_STUBS: u32 = 0x8;

/// Lazy pointers to symbols of lazily loaded dylibs.
pub const S_LAZY_DYLIB_SYMBOL_POINTERS: u32 = 0x10;

/// Initial data of thread-local variables.
pub const S_THREAD_LOCAL_REGULAR: u32 = 0x11;

/// Zero-filled thread-local variables.
pub const S_THREAD_LOCAL_ZEROFILL: u32 = 0x12;

/// Thread-local variable descriptors.
pub const S_THREAD_LOCAL_VARIABLES: u32 = 0x13;

/// Pointers to thread-local variable descriptors.
pub const S_THREAD_LOCAL_VARIABLE_POINTERS: u32 = 0x14;

/// A debug section.
pub const S_ATTR_DEBUG: u32 = 0x0200_0000;

/// A section of nothing but instructions.
pub const S_ATTR_PURE_INSTRUCTIONS: u32 = 0x8000_0000;

/// A section with some instructions.
pub const S_ATTR_SOME_INSTRUCTIONS: u32 = 0x0000_0400;

/// Zero-filled storage.
pub const S_ZEROFILL: u32 = 0x1;

/// C string literals.
pub const S_CSTRING_LITERALS: u32 = 0x2;

/// Pointers to module initialisers.
pub const S_MOD_INIT_FUNC_POINTERS: u32 = 0x9;

/// Zero-filled storage that may exceed 4 GiB.
pub const S_GB_ZEROFILL: u32 = 0xc;

/// The bits of a section's flags that hold its attributes.
pub const SECTION_ATTRIBUTES_MASK: u32 = 0xffff_ff00;

/// The attributes that say a section has external or local relocations.
pub const SECTION_FLAGS_PROPAGATION_MASK: u32 = 0x300;

/// A section that dead stripping must keep.
pub const S_ATTR_NO_DEAD_STRIP: u32 = 0x1000_0000;

/// Pointers to literals.
pub const S_LITERAL_POINTERS: u32 = 0x5;

/// Records that the static linker may coalesce.
pub const S_COALESCED: u32 = 0xb;

/// Blocks that stay live when what they refer to is live.
pub const S_ATTR_LIVE_SUPPORT: u32 = 0x0800_0000;

/// A section with no table of contents.
pub const S_ATTR_NO_TOC: u32 = 0x4000_0000;

/// An indirect-symbol entry of a symbol that was made local.
pub const INDIRECT_SYMBOL_LOCAL: u32 = 0x8000_0000;

/// An indirect-symbol entry of an absolute symbol.
pub const INDIRECT_SYMBOL_ABS: u32 = 0x4000_0000;

/// The section type held in a section's flags.
pub open spec fn section_type(flags: u32) -> u32 {
    flags & SECTION_TYPE_MASK
}

/// Whether a segment holds no loadable input: the zero page, link-edit data, bitcode or debug
/// information.
pub open spec fn is_non_loadable_segment(name: Seq<u8>) -> bool {
    ||| name == SegmentName::spec_pagezero()
    ||| name == SegmentName::spec_linkedit()
    ||| name == SegmentName::spec_llvm()
    ||| name == SegmentName::spec_dwarf()
}

/// Whether a section is linker metadata or debug data rather than input to a loadable segment:
/// a debug section outside `__LD`, or any section of a non-loadable segment.
pub open spec fn spec_is_non_alloc_section(flags: u32, segment_name: Seq<u8>) -> bool {
    ||| (flags & S_ATTR_DEBUG != 0 && padded_name(segment_name) != SegmentName::spec_ld())
    ||| is_non_loadable_segment(padded_name(segment_name))
}

/// Whether a section is linker metadata or debug data rather than input to a loadable output
/// segment, judged from its attributes and the segment it belongs to.
pub fn is_non_alloc_section(flags: u32, segment_name: &[u8]) -> (r: bool)
    requires
        segment_name@.len() <= 16,
    ensures
        r == spec_is_non_alloc_section(flags, segment_name@),
{
    let segment = SegmentName::from_bytes(segment_name);
    (flags & S_ATTR_DEBUG != 0 && !segment.same_as(&SegmentName::ld())) || segment.same_as(
        &SegmentName::pagezero(),
    ) || segment.same_as(&SegmentName::linkedit()) || segment.same_as(&SegmentName::llvm())
        || segment.same_as(&SegmentName::dwarf())
}

/// Whether a section type holds thread-local storage itself; descriptors and pointers to them
/// are not thread-local data.
pub open spec fn spec_is_tls_section_type(section_type: u32) -> bool {
    section_type == S_THREAD_LOCAL_REGULAR || section_type == S_THREAD_LOCAL_ZEROFILL
}

/// Whether a section type holds thread-local storage.
pub fn is_tls_section_type(section_type: u32) -> (r: bool)
    ensures
        r == spec_is_tls_section_type(section_type),
{
    section_type == S_THREAD_LOCAL_REGULAR || section_type == S_THREAD_LOCAL_ZEROFILL
}

/// The alignment a section gets in the output: thread-local variable descriptors are at least
/// word aligned, whatever the object says; any other section keeps its own.
pub fn minimum_section_alignment(section_type: u32, input_alignment: u64) -> (r: u64)
    ensures
        section_type == S_THREAD_LOCAL_VARIABLES ==> r == if input_alignment < 8 {
            8
        } else {
            input_alignment
        },
        section_type != S_THREAD_LOCAL_VARIABLES ==> r == input_alignment,
{
    if section_type == S_THREAD_LOCAL_VARIABLES {
        if input_alignment < 8 {
            8
        } else {
            input_alignment
        }
    } else {
        input_alignment
    }
}

/// Whether a section type has no bytes in the file.
pub open spec fn spec_is_no_bits(section_type: u32) -> bool {
    section_type == S_ZEROFILL || section_type == S_GB_ZEROFILL || section_type
        == S_THREAD_LOCAL_ZEROFILL
}

/// Whether a section type has no bytes in the file: the zero-fill types.
pub fn is_no_bits_section_type(section_type: u32) -> (r: bool)
    ensures
        r == spec_is_no_bits(section_type),
{
    section_type == S_ZEROFILL || section_type == S_GB_ZEROFILL || section_type
        == S_THREAD_LOCAL_ZEROFILL
}

/// Whether a section is a root of dead stripping: it says so, or it holds the module
/// initialisers that dyld finds without a symbol reference.
pub fn section_should_retain(flags: u32) -> (r: bool)
    ensures
        r == (flags & S_ATTR_NO_DEAD_STRIP != 0 || section_type(flags) == S_MOD_INIT_FUNC_POINTERS),
{
    flags & S_ATTR_NO_DEAD_STRIP != 0 || flags & SECTION_TYPE_MASK == S_MOD_INIT_FUNC_POINTERS
}

/// Whether a section holds C string literals, which are merged.
pub fn section_is_strings(flags: u32) -> (r: bool)
    ensures
        r == (section_type(flags) == S_CSTRING_LITERALS),
{
    flags & SECTION_TYPE_MASK == S_CSTRING_LITERALS
}

/// The type, attributes and writability that an output section takes from its inputs.
#[derive(Debug, Clone, Copy, PartialEq, Eq, Default)]
pub struct SectionAttributes {
    pub ty: u32,
    pub attr: u32,
    pub writable: bool,
}

impl SectionAttributes {
    /// The attributes of an input section with `flags` in `segment`; a section outside any known
    /// segment is not writable.
    pub fn new(flags: u32, segment: Option<SegmentName>) -> (r: SectionAttributes)
        ensures
            r.ty == section_type(flags),
            r.attr == flags & SECTION_ATTRIBUTES_MASK,
            r.writable == (segment matches Some(name) && !SegmentName::spec_is_read_only_name(name@)),
    {
        let writable = match segment {
            Some(name) => name.is_writable(),
            None => false,
        };
        SectionAttributes { ty: flags & SECTION_TYPE_MASK, attr: flags & SECTION_ATTRIBUTES_MASK, writable }
    }

    /// The attributes of a section that holds the inputs of both: the larger type, so that a
    /// specialised type wins over `S_REGULAR`, and every attribute and writability of either.
    pub open spec fn spec_merge(self, rhs: SectionAttributes) -> SectionAttributes {
        SectionAttributes {
            ty: if self.ty < rhs.ty {
                rhs.ty
            } else {
                self.ty
            },
            attr: self.attr | rhs.attr,
            writable: self.writable || rhs.writable,
        }
    }

    /// Folds the attributes of another input into these.
    pub fn merge(&mut self, rhs: SectionAttributes)
        ensures
            *final(self) == old(self).spec_merge(rhs),
    {
        if self.ty < rhs.ty {
            self.ty = rhs.ty;
        }
        self.attr = self.attr | rhs.attr;
        self.writable = self.writable || rhs.writable;
    }

    /// Folds these input attributes into the attributes of the output section they are placed in;
    /// relocation-presence attributes describe the input only and are not carried over.
    pub fn apply(&self, output: &mut SectionAttributes)
        ensures
            final(output).ty == if old(output).ty < self.ty {
                self.ty
            } else {
                old(output).ty
            },
            final(output).attr == old(output).attr | (self.attr & !SECTION_FLAGS_PROPAGATION_MASK),
            final(output).writable == (old(output).writable || self.writable),
    {
        if output.ty < self.ty {
            output.ty = self.ty;
        }
        output.attr = output.attr | (self.attr & !SECTION_FLAGS_PROPAGATION_MASK);
        output.writable = output.writable || self.writable;
    }

    /// The flags of the output section: its attributes with its type.
    pub fn flags(&self) -> (r: u32)
        ensures
            r == self.attr | self.ty,
    {
        self.attr | self.ty
    }

    /// Whether the section holds instructions.
    pub fn is_executable(&self) -> (r: bool)
        ensures
            r == ((self.attr | self.ty) & (S_ATTR_PURE_INSTRUCTIONS | S_ATTR_SOME_INSTRUCTIONS) != 0),
    {
        self.flags() & (S_ATTR_PURE_INSTRUCTIONS | S_ATTR_SOME_INSTRUCTIONS) != 0
    }

    /// Whether the section holds thread-local storage.
    pub fn is_tls(&self) -> (r: bool)
        ensures
            r == spec_is_tls_section_type(self.ty),
    {
        is_tls_section_type(self.ty)
    }

    /// Whether the section has no bytes in the file.
    pub fn is_no_bits(&self) -> (r: bool)
        ensures
            r == spec_is_no_bits(self.ty),
    {
        is_no_bits_section_type(self.ty)
    }
}

/// Merging the attributes of the inputs of one output section does not depend on the order in
/// which they come, and merging the same attributes twice changes nothing.
pub proof fn lemma_merge_is_order_independent(a: SectionAttributes, b: SectionAttributes, c: SectionAttributes)
    ensures
        a.spec_merge(b) == b.spec_merge(a),
        a.spec_merge(b).spec_merge(c) == a.spec_merge(b.spec_merge(c)),
        a.spec_merge(a) == a,
{
    let (x, y, z) = (a.attr, b.attr, c.attr);
    assert(x | y == y | x) by (bit_vector);
    assert((x | y) | z == x | (y | z)) by (bit_vector);
    assert(x | x == x) by (bit_vector);
}

/// What the symbols of a section's definitions are: thread-local and/or code.
#[derive(Debug, Clone, Copy, PartialEq, Eq, Default)]
pub struct SymbolSectionProperties {
    pub is_tls: bool,
    pub is_func: bool,
}

/// The properties that a section's flags give the symbols defined in it.
pub fn symbol_section_properties_from_section(flags: u32) -> (r: SymbolSectionProperties)
    ensures
        r.is_tls == spec_is_tls_section_type(section_type(flags)),
        r.is_func == (flags & (S_ATTR_PURE_INSTRUCTIONS | S_ATTR_SOME_INSTRUCTIONS) != 0),
{
    SymbolSectionProperties {
        is_tls: is_tls_section_type(flags & SECTION_TYPE_MASK),
        is_func: flags & (S_ATTR_PURE_INSTRUCTIONS | S_ATTR_SOME_INSTRUCTIONS) != 0,
    }
}

/// The section types whose entries are bound through the indirect-symbol table of a final image.
#[derive(Debug, Clone, Copy, PartialEq, Eq)]
pub enum IndirectSymbolSectionKind {
    NonLazySymbolPointers,
    LazySymbolPointers,
    SymbolStubs,
    LazyDylibSymbolPointers,
    ThreadLocalVariablePointers,
}

/// The indirect-symbol kind of a section type, if it has one.
pub open spec fn spec_indirect_symbol_section_kind(section_type: u32) -> Option<IndirectSymbolSectionKind> {
    if section_type == S_NON_LAZY_SYMBOL_POINTERS {
        Some(IndirectSymbolSectionKind::NonLazySymbolPointers)
    } else if section_type == S_LAZY_SYMBOL_POINTERS {
        Some(IndirectSymbolSectionKind::LazySymbolPointers)
    } else if section_type == S_SYMBOL_STUBS {
        Some(IndirectSymbolSectionKind::SymbolStubs)
    } else if section_type == S_LAZY_DYLIB_SYMBOL_POINTERS {
        Some(IndirectSymbolSectionKind::LazyDylibSymbolPointers)
    } else if section_type == S_THREAD_LOCAL_VARIABLE_POINTERS {
        Some(IndirectSymbolSectionKind::ThreadLocalVariablePointers)
    } else {
        None
    }
}

/// The indirect-symbol kind of a section type: the types whose entries are interpreted through
/// `LC_DYSYMTAB`'s indirect-symbol table rather than through relocations.
pub fn indirect_symbol_section_type_name(section_type: u32) -> (r: Option<IndirectSymbolSectionKind>)
    ensures
        r == spec_indirect_symbol_section_kind(section_type),
{
    if section_type == S_NON_LAZY_SYMBOL_POINTERS {
        Some(IndirectSymbolSectionKind::NonLazySymbolPointers)
    } else if section_type == S_LAZY_SYMBOL_POINTERS {
        Some(IndirectSymbolSectionKind::LazySymbolPointers)
    } else if section_type == S_SYMBOL_STUBS {
        Some(IndirectSymbolSectionKind::SymbolStubs)
    } else if section_type == S_LAZY_DYLIB_SYMBOL_POINTERS {
        Some(IndirectSymbolSectionKind::LazyDylibSymbolPointers)
    } else if section_type == S_THREAD_LOCAL_VARIABLE_POINTERS {
        Some(IndirectSymbolSectionKind::ThreadLocalVariablePointers)
    } else {
        None
    }
}

/// The symbol an indirect-symbol entry names: none for an entry of a local or absolute symbol.
pub open spec fn spec_indirect_symbol_index(entry: u32) -> Option<u32> {
    if entry & (INDIRECT_SYMBOL_LOCAL | INDIRECT_SYMBOL_ABS) != 0 {
        None
    } else {
        Some(entry)
    }
}

/// The symbol an indirect-symbol entry names, if any.
pub fn indirect_symbol_index(entry: u32) -> (r: Option<u32>)
    ensures
        r == spec_indirect_symbol_index(entry),
{
    if entry & (INDIRECT_SYMBOL_LOCAL | INDIRECT_SYMBOL_ABS) != 0 {
        None
    } else {
        Some(entry)
    }
}

/// The fields of an input section header that the indirect-symbol check reads.
#[derive(Debug, Clone, Copy, PartialEq, Eq)]
pub struct IndirectSymbolSectionHeader {
    pub flags: u32,
    pub size: u64,
    pub reserved1: u32,
    pub reserved2: u32,
}

/// Why an object with an indirect-symbol section was refused; each names the section by its
/// index among the object's sections and by its kind.
#[derive(Debug, Clone, Copy, PartialEq, Eq)]
pub enum IndirectSymbolError {
    /// A symbol-stub section gives a stub size of zero.
    ZeroEntrySize { section: usize, kind: IndirectSymbolSectionKind },
    /// The section's size is not a multiple of its entry size.
    SizeNotMultiple { section: usize, kind: IndirectSymbolSectionKind, size: u64, entry_size: u64 },
    /// The section has more entries than an index can count.
    TooManyEntries { section: usize, kind: IndirectSymbolSectionKind },
    /// The section has entries but the object has no indirect-symbol table.
    MissingTable { section: usize, kind: IndirectSymbolSectionKind },
    /// The section's range of table entries overflows.
    RangeOverflow { section: usize, kind: IndirectSymbolSectionKind },
    /// The table is shorter than the section's range of entries.
    TableTooShort {
        section: usize,
        kind: IndirectSymbolSectionKind,
        first: usize,
        end: usize,
        available: usize,
    },
    /// An entry of the section's range names a symbol past the symbol table.
    SymbolOutOfRange {
        section: usize,
        kind: IndirectSymbolSectionKind,
        entry: usize,
        symbol: u32,
        symbol_count: usize,
    },
    /// The section is well formed, but an already-linked table cannot be carried into
    /// chained-fixup output.
    Unsupported { section: usize, kind: IndirectSymbolSectionKind },
}

/// The entry size of an indirect-symbol section: the stub size of a stub section, a pointer
/// otherwise.
pub open spec fn indirect_entry_size(s: IndirectSymbolSectionHeader) -> u64 {
    if section_type(s.flags) == S_SYMBOL_STUBS {
        s.reserved2 as u64
    } else {
        GOT_ENTRY_SIZE
    }
}

/// Whether entry `j` of the table names a symbol past a table of `symbol_count` symbols.
pub open spec fn entry_out_of_range(table: Seq<u32>, j: int, symbol_count: usize) -> bool {
    spec_indirect_symbol_index(table[j]) matches Some(index) && index >= symbol_count
}

/// The first entry among `first .. first + n` of the table that names a symbol out of range.
pub open spec fn first_out_of_range(table: Seq<u32>, first: int, n: int, symbol_count: usize) -> Option<int>
    decreases n,
{
    if n <= 0 {
        None
    } else {
        match first_out_of_range(table, first, n - 1, symbol_count) {
            Some(j) => Some(j),
            None => if entry_out_of_range(table, first + n - 1, symbol_count) {
                Some(first + n - 1)
            } else {
                None
            },
        }
    }
}

/// Why the indirect-symbol section `s`, at index `k`, is refused. An indirect-symbol section is
/// always refused: its structure is checked first so that a corrupt table is reported as such.
pub open spec fn indirect_section_error(
    s: IndirectSymbolSectionHeader,
    kind: IndirectSymbolSectionKind,
    k: usize,
    symbol_count: usize,
    table: Option<Seq<u32>>,
) -> IndirectSymbolError {
    let entry_size = indirect_entry_size(s);
    if entry_size == 0 {
        IndirectSymbolError::ZeroEntrySize { section: k, kind }
    } else if s.size % entry_size != 0 {
        IndirectSymbolError::SizeNotMultiple { section: k, kind, size: s.size, entry_size }
    } else {
        let count = s.size / entry_size;
        if count > usize::MAX {
            IndirectSymbolError::TooManyEntries { section: k, kind }
        } else if count == 0 {
            IndirectSymbolError::Unsupported { section: k, kind }
        } else {
            match table {
                None => IndirectSymbolError::MissingTable { section: k, kind },
                Some(t) => {
                    let first = s.reserved1 as int;
                    if first + count > usize::MAX {
                        IndirectSymbolError::RangeOverflow { section: k, kind }
                    } else if first + count > t.len() {
                        IndirectSymbolError::TableTooShort {
                            section: k,
                            kind,
                            first: first as usize,
                            end: (first + count) as usize,
                            available: t.len() as usize,
                        }
                    } else {
                        match first_out_of_range(t, first, count as int, symbol_count) {
                            Some(j) => IndirectSymbolError::SymbolOutOfRange {
                                section: k,
                                kind,
                                entry: j as usize,
                                symbol: t[j],
                                symbol_count,
                            },
                            None => IndirectSymbolError::Unsupported { section: k, kind },
                        }
                    }
                },
            }
        }
    }
}

/// The outcome of checking the first `n` sections: the error of the first indirect-symbol
/// section among them, if there is one.
pub open spec fn spec_validate_indirect_symbol_sections(
    sections: Seq<IndirectSymbolSectionHeader>,
    n: int,
    symbol_count: usize,
    table: Option<Seq<u32>>,
) -> Result<(), IndirectSymbolError>
    decreases n,
{
    if n <= 0 {
        Ok(())
    } else {
        match spec_validate_indirect_symbol_sections(sections, n - 1, symbol_count, table) {
            Err(e) => Err(e),
            Ok(()) => match spec_indirect_symbol_section_kind(section_type(sections[n - 1].flags)) {
                None => Ok(()),
                Some(kind) => Err(
                    indirect_section_error(sections[n - 1], kind, (n - 1) as usize, symbol_count, table),
                ),
            },
        }
    }
}

/// Checks the entries of the first section of `sections` that uses an indirect-symbol table
/// against that table and the symbol table, then refuses it; an object without such sections
/// passes.
pub fn validate_indirect_symbol_sections(
    sections: &[IndirectSymbolSectionHeader],
    symbol_count: usize,
    indirect_symbols: Option<&[u32]>,
) -> (r: Result<(), IndirectSymbolError>)
    ensures
        r == spec_validate_indirect_symbol_sections(
            sections@,
            sections@.len() as int,
            symbol_count,
            match indirect_symbols {
                Some(t) => Some(t@),
                None => None,
            },
        ),
{
    let ghost table = match indirect_symbols {
        Some(t) => Some(t@),
        None => None,
    };
    let mut k: usize = 0;
    while k < sections.len()
        invariant
            0 <= k <= sections@.len(),
            table == match indirect_symbols {
                Some(t) => Some(t@),
                None => None::<Seq<u32>>,
            },
            spec_validate_indirect_symbol_sections(sections@, k as int, symbol_count, table) is Ok,
        decreases sections@.len() - k,
    {
        let section = sections[k];
        match indirect_symbol_section_type_name(section.flags & SECTION_TYPE_MASK) {
            None => {},
            Some(kind) => {
                let e = indirect_section_check(section, kind, k, symbol_count, indirect_symbols);
                proof {
                    lemma_validate_error_stays(sections@, (k + 1) as int, sections@.len() as int, symbol_count, table);
                }
                return Err(e);
            },
        }
        k = k + 1;
    }
    Ok(())
}

/// Checks one indirect-symbol section and says why it is refused.
#[verifier::loop_isolation(false)]
fn indirect_section_check(
    section: IndirectSymbolSectionHeader,
    kind: IndirectSymbolSectionKind,
    k: usize,
    symbol_count: usize,
    indirect_symbols: Option<&[u32]>,
) -> (e: IndirectSymbolError)
    ensures
        e == indirect_section_error(
            section,
            kind,
            k,
            symbol_count,
            match indirect_symbols {
                Some(t) => Some(t@),
                None => None,
            },
        ),
{
    let entry_size = if section.flags & SECTION_TYPE_MASK == S_SYMBOL_STUBS {
        section.reserved2 as u64
    } else {
        GOT_ENTRY_SIZE
    };
    if entry_size == 0 {
        return IndirectSymbolError::ZeroEntrySize { section: k, kind };
    }
    if section.size % entry_size != 0 {
        return IndirectSymbolError::SizeNotMultiple {
            section: k,
            kind,
            size: section.size,
            entry_size,
        };
    }
    let count64 = section.size / entry_size;
    if count64 > usize::MAX as u64 {
        return IndirectSymbolError::TooManyEntries { section: k, kind };
    }
    let count = count64 as usize;
    if count == 0 {
        return IndirectSymbolError::Unsupported { section: k, kind };
    }
    let table = match indirect_symbols {
        None => {
            return IndirectSymbolError::MissingTable { section: k, kind };
        },
        Some(table) => table,
    };
    let first = section.reserved1 as usize;
    if first > usize::MAX - count {
        return IndirectSymbolError::RangeOverflow { section: k, kind };
    }
    let end = first + count;
    if end > table.len() {
        return IndirectSymbolError::TableTooShort {
            section: k,
            kind,
            first,
            end,
            available: table.len(),
        };
    }
    let mut j: usize = first;
    while j < end
        invariant
            first <= j <= end <= table@.len(),
            end == first + count,
            first_out_of_range(table@, first as int, (j - first) as int, symbol_count) is None,
        decreases end - j,
    {
        match indirect_symbol_index(table[j]) {
            Some(index) => {
                if index as usize >= symbol_count {
                    proof {
                        assert(first_out_of_range(table@, first as int, (j + 1 - first) as int, symbol_count)
                            == Some(j as int));
                        lemma_first_out_of_range_stays(
                            table@,
                            first as int,
                            (j + 1 - first) as int,
                            count as int,
                            symbol_count,
                        );
                    }
                    return IndirectSymbolError::SymbolOutOfRange {
                        section: k,
                        kind,
                        entry: j,
                        symbol: table[j],
                        symbol_count,
                    };
                }
            },
            None => {},
        }
        j = j + 1;
    }
    IndirectSymbolError::Unsupported { section: k, kind }
}

/// Once the first `k` entries of a range hold one out of range, the first `n` hold the same one.
proof fn lemma_first_out_of_range_stays(table: Seq<u32>, first: int, k: int, n: int, symbol_count: usize)
    requires
        0 <= k <= n,
        first_out_of_range(table, first, k, symbol_count) is Some,
    ensures
        first_out_of_range(table, first, n, symbol_count) == first_out_of_range(
            table,
            first,
            k,
            symbol_count,
        ),
    decreases n - k,
{
    if n > k {
        lemma_first_out_of_range_stays(table, first, k, n - 1, symbol_count);
    }
}

/// Once the first `k` sections are refused, the first `n` are refused for the same reason.
proof fn lemma_validate_error_stays(
    sections: Seq<IndirectSymbolSectionHeader>,
    k: int,
    n: int,
    symbol_count: usize,
    table: Option<Seq<u32>>,
)
    requires
        0 <= k <= n,
        spec_validate_indirect_symbol_sections(sections, k, symbol_count, table) is Err,
    ensures
        spec_validate_indirect_symbol_sections(sections, n, symbol_count, table)
            == spec_validate_indirect_symbol_sections(sections, k, symbol_count, table),
    decreases n - k,
{
    if n > k {
        lemma_validate_error_stays(sections, k, n - 1, symbol_count, table);
    }
}

} // verus!
