//! Output section ids: the built-in Mach-O sections and the named sections added while the
//! inputs are laid out. A section is identified by its section name together with its segment
//! name, so `__DATA,__text` is a different section from `__TEXT,__text`.
use crate::sections::{
    S_ATTR_LIVE_SUPPORT, S_ATTR_NO_DEAD_STRIP, S_ATTR_NO_TOC, S_ATTR_PURE_INSTRUCTIONS,
    S_ATTR_SOME_INSTRUCTIONS, S_COALESCED, S_LITERAL_POINTERS, S_NON_LAZY_SYMBOL_POINTERS,
    S_REGULAR, S_SYMBOL_STUBS, S_THREAD_LOCAL_VARIABLE_POINTERS, S_ZEROFILL,
};
use crate::segment::{bytes_equal, SegmentName};
use vstd::prelude::*;

verus! {

/// The id of the built-in `FILE_HEADER` section.
pub const FILE_HEADER: u32 = 0;

/// The id of the built-in `LOAD_COMMANDS` section.
pub const LOAD_COMMANDS: u32 = 1;

/// The id of the built-in `__LINKEDIT` section.
pub const LINK_EDIT_SEGMENT: u32 = 2;

/// The id of the built-in `STRTAB` section.
pub const STRTAB: u32 = 3;

/// The id of the built-in `DYLD_CHAINED_FIXUPS_TABLE` section.
pub const CHAINED_FIXUP_TABLE: u32 = 4;

/// The id of the built-in `EXPORTS_TRIE` section.
pub const EXPORTS_TRIE: u32 = 5;

/// The id of the built-in `SYMTAB` section.
pub const SYMTAB_GLOBAL: u32 = 6;

/// The id of the built-in `CODE_SIGNATURE` section.
pub const CODE_SIGNATURE: u32 = 7;

/// The id of the built-in `__got` section.
pub const GOT: u32 = 8;

/// The id of the built-in `__thread_ptrs` section.
pub const TLVP: u32 = 9;

/// The id of the built-in `__stubs` section.
pub const PLT_GOT: u32 = 10;

/// The id of the built-in `__objc_stubs` section.
pub const OBJC_MESSAGE_STUBS: u32 = 11;

/// The id of the built-in `__objc_selrefs` section.
pub const OBJC_SELECTOR_REFERENCES: u32 = 12;

/// The id of the built-in `__objc_selrefs` section.
pub const OBJC_CONST_SELECTOR_REFERENCES: u32 = 13;

/// The id of the built-in `__eh_frame` section.
pub const EH_FRAME: u32 = 14;

/// The id of the built-in `__unwind_info` section.
pub const UNWIND_INFO: u32 = 15;

/// The id of the built-in `__text` section.
pub const TEXT: u32 = 16;

/// The id of the built-in `__common` section.
pub const COMMON: u32 = 17;

/// How many built-in sections there are; every id from here on is a named custom section.
pub const NUM_BUILT_IN_SECTIONS: u32 = 18;

/// What identifies a section: its name and, for a real Mach-O section, its segment.
/// Synthetic regions such as the file header have no segment.
#[derive(Clone, Debug)]
pub struct SectionIdentity {
    pub name: Vec<u8>,
    pub segment: Option<SegmentName>,
}

/// A section identity as plain values: the name bytes and the padded segment name.
pub type IdentityView = (Seq<u8>, Option<Seq<u8>>);

impl View for SectionIdentity {
    type V = IdentityView;

    open spec fn view(&self) -> IdentityView {
        (self.name@, match self.segment {
            Some(s) => Some(s@),
            None => None,
        })
    }
}

/// A copy of `bytes`.
fn copy_bytes(bytes: &[u8]) -> (r: Vec<u8>)
    ensures
        r@ == bytes@,
{
    let mut r: Vec<u8> = Vec::new();
    let mut i: usize = 0;
    while i < bytes.len()
        invariant
            0 <= i <= bytes@.len(),
            r@ == bytes@.subrange(0, i as int),
        decreases bytes@.len() - i,
    {
        r.push(bytes[i]);
        i = i + 1;
    }
    assert(r@ =~= bytes@);
    r
}

impl SectionIdentity {
    /// The identity of section `name` in `segment`.
    pub fn new(name: &[u8], segment: Option<SegmentName>) -> (r: SectionIdentity)
        ensures
            r.name@ == name@,
            r.segment == segment,
    {
        SectionIdentity { name: copy_bytes(name), segment }
    }

    /// Whether two identities name the same section.
    pub fn same_as(&self, other: &SectionIdentity) -> (r: bool)
        ensures
            r == (self@ == other@),
    {
        if !bytes_equal(self.name.as_slice(), other.name.as_slice()) {
            return false;
        }
        match (&self.segment, &other.segment) {
            (Some(a), Some(b)) => a.same_as(b),
            (None, None) => true,
            _ => false,
        }
    }
}

/// The section name of built-in section `id`.
pub open spec fn built_in_name(id: u32) -> Seq<u8> {
    match id {
        0 => seq![70u8, 73, 76, 69, 95, 72, 69, 65, 68, 69, 82],
        1 => seq![76u8, 79, 65, 68, 95, 67, 79, 77, 77, 65, 78, 68, 83],
        2 => seq![95u8, 95, 76, 73, 78, 75, 69, 68, 73, 84],
        3 => seq![83u8, 84, 82, 84, 65, 66],
        4 => seq![68u8, 89, 76, 68, 95, 67, 72, 65, 73, 78, 69, 68, 95, 70, 73, 88, 85, 80, 83, 95, 84, 65, 66, 76, 69],
        5 => seq![69u8, 88, 80, 79, 82, 84, 83, 95, 84, 82, 73, 69],
        6 => seq![83u8, 89, 77, 84, 65, 66],
        7 => seq![67u8, 79, 68, 69, 95, 83, 73, 71, 78, 65, 84, 85, 82, 69],
        8 => seq![95u8, 95, 103, 111, 116],
        9 => seq![95u8, 95, 116, 104, 114, 101, 97, 100, 95, 112, 116, 114, 115],
        10 => seq![95u8, 95, 115, 116, 117, 98, 115],
        11 => seq![95u8, 95, 111, 98, 106, 99, 95, 115, 116, 117, 98, 115],
        12 => seq![95u8, 95, 111, 98, 106, 99, 95, 115, 101, 108, 114, 101, 102, 115],
        13 => seq![95u8, 95, 111, 98, 106, 99, 95, 115, 101, 108, 114, 101, 102, 115],
        14 => seq![95u8, 95, 101, 104, 95, 102, 114, 97, 109, 101],
        15 => seq![95u8, 95, 117, 110, 119, 105, 110, 100, 95, 105, 110, 102, 111],
        16 => seq![95u8, 95, 116, 101, 120, 116],
        17 => seq![95u8, 95, 99, 111, 109, 109, 111, 110],
        _ => Seq::empty(),
    }
}

/// The segment of built-in section `id`, if it has one.
pub open spec fn built_in_segment(id: u32) -> Option<Seq<u8>> {
    match id {
        0 => None,
        1 => None,
        2 => None,
        3 => None,
        4 => None,
        5 => None,
        6 => None,
        7 => None,
        8 => Some(SegmentName::spec_data_const()),
        9 => Some(SegmentName::spec_data()),
        10 => Some(SegmentName::spec_text()),
        11 => Some(SegmentName::spec_text()),
        12 => Some(SegmentName::spec_data()),
        13 => Some(SegmentName::spec_data_const()),
        14 => Some(SegmentName::spec_text()),
        15 => Some(SegmentName::spec_text()),
        16 => Some(SegmentName::spec_text()),
        17 => Some(SegmentName::spec_data()),
        _ => None,
    }
}

/// The identity of built-in section `id`.
pub open spec fn built_in_identity(id: u32) -> IdentityView {
    (built_in_name(id), built_in_segment(id))
}

/// The Mach-O section flags of built-in section `id`.
pub open spec fn built_in_flags(id: u32) -> u32 {
    match id {
        0 => 0,
        1 => 0,
        2 => 0,
        3 => 0,
        4 => 0,
        5 => 0,
        6 => 0,
        7 => 0,
        8 => S_NON_LAZY_SYMBOL_POINTERS,
        9 => S_THREAD_LOCAL_VARIABLE_POINTERS,
        10 => S_SYMBOL_STUBS | S_ATTR_PURE_INSTRUCTIONS | S_ATTR_SOME_INSTRUCTIONS,
        11 => S_REGULAR | S_ATTR_PURE_INSTRUCTIONS | S_ATTR_SOME_INSTRUCTIONS,
        12 => S_LITERAL_POINTERS | S_ATTR_NO_DEAD_STRIP,
        13 => S_REGULAR,
        14 => S_COALESCED | S_ATTR_LIVE_SUPPORT | S_ATTR_NO_TOC,
        15 => 0,
        16 => S_REGULAR | S_ATTR_PURE_INSTRUCTIONS | S_ATTR_SOME_INSTRUCTIONS,
        17 => S_ZEROFILL,
        _ => 0,
    }
}

/// The minimum alignment exponent of built-in section `id`.
pub open spec fn built_in_alignment(id: u32) -> u8 {
    match id {
        0 => 0,
        1 => 0,
        2 => 0,
        3 => 0,
        4 => 3,
        5 => 0,
        6 => 3,
        7 => 4,
        8 => 0,
        9 => 3,
        10 => 2,
        11 => 5,
        12 => 3,
        13 => 3,
        14 => 3,
        15 => 2,
        16 => 2,
        17 => 0,
        _ => 0,
    }
}

/// A power-of-two alignment, as its exponent.
#[derive(Clone, Copy, Debug, PartialEq, Eq)]
pub struct Alignment {
    pub exponent: u8,
}

/// What the table says of a built-in section.
#[derive(Clone, Debug)]
pub struct BuiltInSectionDetails {
    pub identity: SectionIdentity,
    pub section_flags: u32,
    pub min_alignment: Alignment,
}

/// The entry of built-in section `id` in the table of built-in sections.
pub fn built_in_section_details(id: u32) -> (r: BuiltInSectionDetails)
    requires
        id < NUM_BUILT_IN_SECTIONS,
    ensures
        r.identity@ == built_in_identity(id),
        r.section_flags == built_in_flags(id),
        r.min_alignment.exponent == built_in_alignment(id),
{
    let (name, segment) = built_in_name_and_segment(id);
    let section_flags: u32 = match id {
        0 => 0,
        1 => 0,
        2 => 0,
        3 => 0,
        4 => 0,
        5 => 0,
        6 => 0,
        7 => 0,
        8 => S_NON_LAZY_SYMBOL_POINTERS,
        9 => S_THREAD_LOCAL_VARIABLE_POINTERS,
        10 => S_SYMBOL_STUBS | S_ATTR_PURE_INSTRUCTIONS | S_ATTR_SOME_INSTRUCTIONS,
        11 => S_REGULAR | S_ATTR_PURE_INSTRUCTIONS | S_ATTR_SOME_INSTRUCTIONS,
        12 => S_LITERAL_POINTERS | S_ATTR_NO_DEAD_STRIP,
        13 => S_REGULAR,
        14 => S_COALESCED | S_ATTR_LIVE_SUPPORT | S_ATTR_NO_TOC,
        15 => 0,
        16 => S_REGULAR | S_ATTR_PURE_INSTRUCTIONS | S_ATTR_SOME_INSTRUCTIONS,
        17 => S_ZEROFILL,
        _ => 0,
    };
    let exponent: u8 = match id {
        0 => 0,
        1 => 0,
        2 => 0,
        3 => 0,
        4 => 3,
        5 => 0,
        6 => 3,
        7 => 4,
        8 => 0,
        9 => 3,
        10 => 2,
        11 => 5,
        12 => 3,
        13 => 3,
        14 => 3,
        15 => 2,
        16 => 2,
        17 => 0,
        _ => 0,
    };
    BuiltInSectionDetails {
        identity: SectionIdentity { name, segment },
        section_flags,
        min_alignment: Alignment { exponent },
    }
}

fn built_in_name_and_segment(id: u32) -> (r: (Vec<u8>, Option<SegmentName>))
    requires
        id < NUM_BUILT_IN_SECTIONS,
    ensures
        r.0@ == built_in_name(id),
        (match r.1 {
            Some(s) => Some(s@),
            None => None,
        }) == built_in_segment(id),
{
    match id {
        0 => {
            let name: [u8; 11] = [70, 73, 76, 69, 95, 72, 69, 65, 68, 69, 82];
            assert(name@ =~= built_in_name(0));
            (copy_bytes(&name), None)
        }
        1 => {
            let name: [u8; 13] = [76, 79, 65, 68, 95, 67, 79, 77, 77, 65, 78, 68, 83];
            assert(name@ =~= built_in_name(1));
            (copy_bytes(&name), None)
        }
        2 => {
            let name: [u8; 10] = [95, 95, 76, 73, 78, 75, 69, 68, 73, 84];
            assert(name@ =~= built_in_name(2));
            (copy_bytes(&name), None)
        }
        3 => {
            let name: [u8; 6] = [83, 84, 82, 84, 65, 66];
            assert(name@ =~= built_in_name(3));
            (copy_bytes(&name), None)
        }
        4 => {
            let name: [u8; 25] = [68, 89, 76, 68, 95, 67, 72, 65, 73, 78, 69, 68, 95, 70, 73, 88, 85, 80, 83, 95, 84, 65, 66, 76, 69];
            assert(name@ =~= built_in_name(4));
            (copy_bytes(&name), None)
        }
        5 => {
            let name: [u8; 12] = [69, 88, 80, 79, 82, 84, 83, 95, 84, 82, 73, 69];
            assert(name@ =~= built_in_name(5));
            (copy_bytes(&name), None)
        }
        6 => {
            let name: [u8; 6] = [83, 89, 77, 84, 65, 66];
            assert(name@ =~= built_in_name(6));
            (copy_bytes(&name), None)
        }
        7 => {
            let name: [u8; 14] = [67, 79, 68, 69, 95, 83, 73, 71, 78, 65, 84, 85, 82, 69];
            assert(name@ =~= built_in_name(7));
            (copy_bytes(&name), None)
        }
        8 => {
            let name: [u8; 5] = [95, 95, 103, 111, 116];
            assert(name@ =~= built_in_name(8));
            (copy_bytes(&name), Some(SegmentName::data_const()))
        }
        9 => {
            let name: [u8; 13] = [95, 95, 116, 104, 114, 101, 97, 100, 95, 112, 116, 114, 115];
            assert(name@ =~= built_in_name(9));
            (copy_bytes(&name), Some(SegmentName::data()))
        }
        10 => {
            let name: [u8; 7] = [95, 95, 115, 116, 117, 98, 115];
            assert(name@ =~= built_in_name(10));
            (copy_bytes(&name), Some(SegmentName::text()))
        }
        11 => {
            let name: [u8; 12] = [95, 95, 111, 98, 106, 99, 95, 115, 116, 117, 98, 115];
            assert(name@ =~= built_in_name(11));
            (copy_bytes(&name), Some(SegmentName::text()))
        }
        12 => {
            let name: [u8; 14] = [95, 95, 111, 98, 106, 99, 95, 115, 101, 108, 114, 101, 102, 115];
            assert(name@ =~= built_in_name(12));
            (copy_bytes(&name), Some(SegmentName::data()))
        }
        13 => {
            let name: [u8; 14] = [95, 95, 111, 98, 106, 99, 95, 115, 101, 108, 114, 101, 102, 115];
            assert(name@ =~= built_in_name(13));
            (copy_bytes(&name), Some(SegmentName::data_const()))
        }
        14 => {
            let name: [u8; 10] = [95, 95, 101, 104, 95, 102, 114, 97, 109, 101];
            assert(name@ =~= built_in_name(14));
            (copy_bytes(&name), Some(SegmentName::text()))
        }
        15 => {
            let name: [u8; 13] = [95, 95, 117, 110, 119, 105, 110, 100, 95, 105, 110, 102, 111];
            assert(name@ =~= built_in_name(15));
            (copy_bytes(&name), Some(SegmentName::text()))
        }
        16 => {
            let name: [u8; 6] = [95, 95, 116, 101, 120, 116];
            assert(name@ =~= built_in_name(16));
            (copy_bytes(&name), Some(SegmentName::text()))
        }
        17 => {
            let name: [u8; 8] = [95, 95, 99, 111, 109, 109, 111, 110];
            assert(name@ =~= built_in_name(17));
            (copy_bytes(&name), Some(SegmentName::data()))
        }
        _ => (Vec::new(), None),
    }
}

/// Whether `id` names a section added by name rather than a built-in one.
pub fn is_custom(id: u32) -> (r: bool)
    ensures
        r == (id >= NUM_BUILT_IN_SECTIONS),
{
    id >= NUM_BUILT_IN_SECTIONS
}

/// Whether relocations are applied at load time.
#[derive(Clone, Copy, Debug, PartialEq, Eq)]
pub enum RelocationModel {
    NonRelocatable,
    Relocatable,
}

/// The kind of file being linked.
#[derive(Clone, Copy, Debug, PartialEq, Eq)]
pub enum OutputKind {
    StaticExecutable(RelocationModel),
    DynamicExecutable(RelocationModel),
    SharedObject,
}

/// A section added by name.
#[derive(Clone, Debug)]
pub struct CustomSection {
    pub identity: SectionIdentity,
    pub min_alignment: Alignment,
}

/// The output sections: the built-in ones, then those added by name. The section with id
/// `NUM_BUILT_IN_SECTIONS + i` is `custom[i]`.
pub struct OutputSections {
    pub base_address: u64,
    pub kind: OutputKind,
    pub custom: Vec<CustomSection>,
}

/// The identity of the `i`th custom section.
pub open spec fn custom_identity(custom: Seq<CustomSection>, i: int) -> IdentityView {
    custom[i].identity@
}

/// Whether `identity` is that of some built-in section.
pub open spec fn is_built_in(identity: IdentityView) -> bool {
    exists|id: u32| id < NUM_BUILT_IN_SECTIONS && #[trigger] built_in_identity(id) == identity
}

/// Whether `identity` is that of one of the custom sections.
pub open spec fn is_added(custom: Seq<CustomSection>, identity: IdentityView) -> bool {
    exists|i: int| 0 <= i < custom.len() && #[trigger] custom_identity(custom, i) == identity
}

impl OutputSections {
    /// No two sections share an identity, and every id fits in a `u32`.
    pub open spec fn wf(&self) -> bool {
        &&& self.custom@.len() + NUM_BUILT_IN_SECTIONS <= u32::MAX
        &&& forall|i: int|
            0 <= i < self.custom@.len() ==> !is_built_in(#[trigger] custom_identity(self.custom@, i))
        &&& forall|i: int, j: int|
            0 <= i < j < self.custom@.len() ==> #[trigger] custom_identity(self.custom@, i)
                != #[trigger] custom_identity(self.custom@, j)
    }

    /// How many sections there are.
    pub open spec fn num_sections(&self) -> int {
        NUM_BUILT_IN_SECTIONS + self.custom@.len()
    }

    /// The identity of section `id`.
    pub open spec fn identity_of(&self, id: u32) -> IdentityView {
        if id < NUM_BUILT_IN_SECTIONS {
            built_in_identity(id)
        } else {
            custom_identity(self.custom@, id - NUM_BUILT_IN_SECTIONS)
        }
    }

    /// The built-in sections alone, for an image based at `base_address`.
    pub fn with_base_address(base_address: u64, kind: OutputKind) -> (r: OutputSections)
        ensures
            r.wf(),
            r.base_address == base_address,
            r.kind == kind,
            r.custom@.len() == 0,
    {
        OutputSections { base_address, kind, custom: Vec::new() }
    }

    /// The id of the section with `identity`: the built-in section with that identity, else the
    /// section added earlier under it, else a new section with the next id, which is added with
    /// `min_alignment`.
    pub fn add_named_section(&mut self, identity: SectionIdentity, min_alignment: Alignment) -> (r: u32)
        requires
            old(self).wf(),
            old(self).custom@.len() + NUM_BUILT_IN_SECTIONS < u32::MAX,
        ensures
            final(self).wf(),
            final(self).base_address == old(self).base_address,
            final(self).kind == old(self).kind,
            r < final(self).num_sections(),
            final(self).identity_of(r) == identity@,
            is_built_in(identity@) ==> r < NUM_BUILT_IN_SECTIONS && final(self).custom@ == old(self).custom@,
            !is_built_in(identity@) && is_added(old(self).custom@, identity@) ==> r >= NUM_BUILT_IN_SECTIONS
                && final(self).custom@ == old(self).custom@,
            !is_built_in(identity@) && !is_added(old(self).custom@, identity@) ==> r == old(self).num_sections()
                && final(self).custom@ == old(self).custom@.push(CustomSection { identity, min_alignment }),
    {
        let mut id: u32 = 0;
        while id < NUM_BUILT_IN_SECTIONS
            invariant
                id <= NUM_BUILT_IN_SECTIONS,
                self.wf(),
                forall|k: u32| k < id ==> built_in_identity(k) != identity@,
            decreases NUM_BUILT_IN_SECTIONS - id,
        {
            let details = built_in_section_details(id);
            if details.identity.same_as(&identity) {
                return id;
            }
            id = id + 1;
        }
        assert(!is_built_in(identity@));
        let mut i: usize = 0;
        while i < self.custom.len()
            invariant
                0 <= i <= self.custom@.len(),
                self.custom@.len() + NUM_BUILT_IN_SECTIONS < u32::MAX,
                self.wf(),
                !is_built_in(identity@),
                forall|k: int| 0 <= k < i ==> custom_identity(self.custom@, k) != identity@,
            decreases self.custom@.len() - i,
        {
            if self.custom[i].identity.same_as(&identity) {
                assert(custom_identity(self.custom@, i as int) == identity@);
                assert(is_added(self.custom@, identity@));
                return NUM_BUILT_IN_SECTIONS + i as u32;
            }
            i = i + 1;
        }
        assert(!is_added(self.custom@, identity@));
        let next = NUM_BUILT_IN_SECTIONS + self.custom.len() as u32;
        let ghost before = self.custom@;
        self.custom.push(CustomSection { identity, min_alignment });
        assert(custom_identity(self.custom@, before.len() as int) == identity@);
        assert forall|k: int| 0 <= k < self.custom@.len() implies !is_built_in(#[trigger] custom_identity(self.custom@, k)) by {
            if k < before.len() {
                assert(custom_identity(self.custom@, k) == custom_identity(before, k));
            }
        }
        assert forall|a: int, b: int| 0 <= a < b < self.custom@.len() implies #[trigger] custom_identity(self.custom@, a)
            != #[trigger] custom_identity(self.custom@, b) by {
            assert(custom_identity(self.custom@, a) == custom_identity(before, a));
            if b < before.len() {
                assert(custom_identity(self.custom@, b) == custom_identity(before, b));
            } else {
                assert(is_added(before, custom_identity(before, a)));
            }
        }
        next
    }
}

/// No two built-in sections share an identity.
pub proof fn lemma_built_in_identities_distinct(a: u32, b: u32)
    requires
        a < NUM_BUILT_IN_SECTIONS,
        b < NUM_BUILT_IN_SECTIONS,
        a != b,
    ensures
        built_in_identity(a) != built_in_identity(b),
{
    assert(forall|i: u32, j: u32| #![trigger built_in_identity(i), built_in_identity(j)]
        i < 18 && j < 18 && i != j ==> built_in_identity(i) != built_in_identity(j)) by {
        assert forall|i: u32, j: u32| i < 18 && j < 18 && i != j implies built_in_identity(i) != built_in_identity(j) by {
            if built_in_identity(i) == built_in_identity(j) {
                assert(built_in_name(i).len() == built_in_name(j).len());
                assert(built_in_name(i)[0] == built_in_name(j)[0]);
                assert(built_in_name(i)[2] == built_in_name(j)[2]);
                assert(built_in_name(i)[3] == built_in_name(j)[3]);
                assert(built_in_name(i)[4] == built_in_name(j)[4]);
            }
        }
    }
}

/// Each section id names one identity: two ids of the same identity are the same id.
pub proof fn lemma_one_id_per_identity(sections: OutputSections, a: u32, b: u32)
    requires
        sections.wf(),
        a < sections.num_sections(),
        b < sections.num_sections(),
        sections.identity_of(a) == sections.identity_of(b),
    ensures
        a == b,
{
    if a < NUM_BUILT_IN_SECTIONS && b < NUM_BUILT_IN_SECTIONS {
        if a != b {
            lemma_built_in_identities_distinct(a, b);
        }
    } else if a < NUM_BUILT_IN_SECTIONS {
        assert(!is_built_in(custom_identity(sections.custom@, b - NUM_BUILT_IN_SECTIONS)));
    } else if b < NUM_BUILT_IN_SECTIONS {
        assert(!is_built_in(custom_identity(sections.custom@, a - NUM_BUILT_IN_SECTIONS)));
    } else if a < b {
        assert(custom_identity(sections.custom@, a - NUM_BUILT_IN_SECTIONS) != custom_identity(sections.custom@, b - NUM_BUILT_IN_SECTIONS));
    } else if b < a {
        assert(custom_identity(sections.custom@, b - NUM_BUILT_IN_SECTIONS) != custom_identity(sections.custom@, a - NUM_BUILT_IN_SECTIONS));
    }
}

} // verus!
