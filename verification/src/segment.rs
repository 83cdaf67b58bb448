//! Mach-O segment names and the segment/section classification rules.
use vstd::prelude::*;

verus! {

/// The fixed width of a Mach-O `segname`/`sectname` field.
pub const NAME_FIELD_SIZE: usize = 16;

/// A name padded with zero bytes to the 16-byte Mach-O field width.
pub open spec fn padded_name(name: Seq<u8>) -> Seq<u8> {
    name + Seq::new((16 - name.len()) as nat, |i: int| 0u8)
}

/// A 16-byte Mach-O segment name, as it is stored in a segment command.
#[derive(Clone, Copy, Debug)]
pub struct SegmentName(pub [u8; 16]);

impl View for SegmentName {
    type V = Seq<u8>;

    open spec fn view(&self) -> Seq<u8> {
        self.0@
    }
}

/// Compares two byte slices for equality.
pub fn bytes_equal(a: &[u8], b: &[u8]) -> (r: bool)
    ensures
        r == (a@ == b@),
{
    if a.len() != b.len() {
        return false;
    }
    let mut i: usize = 0;
    while i < a.len()
        invariant
            a@.len() == b@.len(),
            0 <= i <= a@.len(),
            forall|j: int| 0 <= j < i ==> a@[j] == b@[j],
        decreases a@.len() - i,
    {
        if a[i] != b[i] {
            return false;
        }
        i = i + 1;
    }
    assert(a@ =~= b@);
    true
}

impl SegmentName {
    /// The raw 16-byte field.
    pub fn into_bytes(self) -> (r: [u8; 16])
        ensures
            r@ == self@,
    {
        self.0
    }

    /// Pads `name` with zero bytes to the segment-name field width.
    pub fn from_bytes(name: &[u8]) -> (r: SegmentName)
        requires
            name@.len() <= 16,
        ensures
            r@ == padded_name(name@),
    {
        let mut bytes = [0u8; 16];
        let mut i: usize = 0;
        while i < name.len()
            invariant
                name@.len() <= 16,
                0 <= i <= name@.len(),
                bytes@.len() == 16,
                forall|j: int| 0 <= j < i ==> bytes@[j] == name@[j],
                forall|j: int| i <= j < 16 ==> bytes@[j] == 0u8,
            decreases name@.len() - i,
        {
            bytes[i] = name[i];
            i = i + 1;
        }
        assert(bytes@ =~= padded_name(name@));
        SegmentName(bytes)
    }

    /// `__PAGEZERO`, zero padded.
    pub open spec fn spec_pagezero() -> Seq<u8> {
        seq![95u8, 95, 80, 65, 71, 69, 90, 69, 82, 79, 0, 0, 0, 0, 0, 0]
    }

    /// The `__PAGEZERO` segment name.
    pub fn pagezero() -> (r: SegmentName)
        ensures
            r@ == Self::spec_pagezero(),
    {
        let r = SegmentName([95u8, 95, 80, 65, 71, 69, 90, 69, 82, 79, 0, 0, 0, 0, 0, 0]);
        assert(r@ =~= Self::spec_pagezero());
        r
    }

    /// `__TEXT`, zero padded.
    pub open spec fn spec_text() -> Seq<u8> {
        seq![95u8, 95, 84, 69, 88, 84, 0, 0, 0, 0, 0, 0, 0, 0, 0, 0]
    }

    /// The `__TEXT` segment name.
    pub fn text() -> (r: SegmentName)
        ensures
            r@ == Self::spec_text(),
    {
        let r = SegmentName([95u8, 95, 84, 69, 88, 84, 0, 0, 0, 0, 0, 0, 0, 0, 0, 0]);
        assert(r@ =~= Self::spec_text());
        r
    }

    /// `__DATA`, zero padded.
    pub open spec fn spec_data() -> Seq<u8> {
        seq![95u8, 95, 68, 65, 84, 65, 0, 0, 0, 0, 0, 0, 0, 0, 0, 0]
    }

    /// The `__DATA` segment name.
    pub fn data() -> (r: SegmentName)
        ensures
            r@ == Self::spec_data(),
    {
        let r = SegmentName([95u8, 95, 68, 65, 84, 65, 0, 0, 0, 0, 0, 0, 0, 0, 0, 0]);
        assert(r@ =~= Self::spec_data());
        r
    }

    /// `__DATA_CONST`, zero padded.
    pub open spec fn spec_data_const() -> Seq<u8> {
        seq![95u8, 95, 68, 65, 84, 65, 95, 67, 79, 78, 83, 84, 0, 0, 0, 0]
    }

    /// The `__DATA_CONST` segment name.
    pub fn data_const() -> (r: SegmentName)
        ensures
            r@ == Self::spec_data_const(),
    {
        let r = SegmentName([95u8, 95, 68, 65, 84, 65, 95, 67, 79, 78, 83, 84, 0, 0, 0, 0]);
        assert(r@ =~= Self::spec_data_const());
        r
    }

    /// `__LINKEDIT`, zero padded.
    pub open spec fn spec_linkedit() -> Seq<u8> {
        seq![95u8, 95, 76, 73, 78, 75, 69, 68, 73, 84, 0, 0, 0, 0, 0, 0]
    }

    /// The `__LINKEDIT` segment name.
    pub fn linkedit() -> (r: SegmentName)
        ensures
            r@ == Self::spec_linkedit(),
    {
        let r = SegmentName([95u8, 95, 76, 73, 78, 75, 69, 68, 73, 84, 0, 0, 0, 0, 0, 0]);
        assert(r@ =~= Self::spec_linkedit());
        r
    }

    /// `__LD`, zero padded.
    pub open spec fn spec_ld() -> Seq<u8> {
        seq![95u8, 95, 76, 68, 0, 0, 0, 0, 0, 0, 0, 0, 0, 0, 0, 0]
    }

    /// The `__LD` segment name.
    pub fn ld() -> (r: SegmentName)
        ensures
            r@ == Self::spec_ld(),
    {
        let r = SegmentName([95u8, 95, 76, 68, 0, 0, 0, 0, 0, 0, 0, 0, 0, 0, 0, 0]);
        assert(r@ =~= Self::spec_ld());
        r
    }

    /// `__LLVM`, zero padded.
    pub open spec fn spec_llvm() -> Seq<u8> {
        seq![95u8, 95, 76, 76, 86, 77, 0, 0, 0, 0, 0, 0, 0, 0, 0, 0]
    }

    /// The `__LLVM` segment name.
    pub fn llvm() -> (r: SegmentName)
        ensures
            r@ == Self::spec_llvm(),
    {
        let r = SegmentName([95u8, 95, 76, 76, 86, 77, 0, 0, 0, 0, 0, 0, 0, 0, 0, 0]);
        assert(r@ =~= Self::spec_llvm());
        r
    }

    /// `__DWARF`, zero padded.
    pub open spec fn spec_dwarf() -> Seq<u8> {
        seq![95u8, 95, 68, 87, 65, 82, 70, 0, 0, 0, 0, 0, 0, 0, 0, 0]
    }

    /// The `__DWARF` segment name.
    pub fn dwarf() -> (r: SegmentName)
        ensures
            r@ == Self::spec_dwarf(),
    {
        let r = SegmentName([95u8, 95, 68, 87, 65, 82, 70, 0, 0, 0, 0, 0, 0, 0, 0, 0]);
        assert(r@ =~= Self::spec_dwarf());
        r
    }

    /// Whether two names are the same 16-byte field.
    pub fn same_as(&self, other: &SegmentName) -> (r: bool)
        ensures
            r == (self@ == other@),
    {
        bytes_equal(self.0.as_slice(), other.0.as_slice())
    }

    /// Segments whose pages are never writable after dyld has applied fixups.
    pub open spec fn spec_is_read_only_name(name: Seq<u8>) -> bool {
        ||| name == Self::spec_pagezero()
        ||| name == Self::spec_text()
        ||| name == Self::spec_data_const()
        ||| name == Self::spec_linkedit()
        ||| name == Self::spec_dwarf()
        ||| name == Self::spec_llvm()
    }

    /// Whether input sections of this segment may be written at run time. `__DATA_CONST` is
    /// read-only once dyld has applied its fixups; debug and linker-metadata segments never map
    /// writable pages.
    pub fn is_writable(self) -> (r: bool)
        ensures
            r == !Self::spec_is_read_only_name(self@),
    {
        let read_only = self.same_as(&Self::pagezero()) || self.same_as(&Self::text())
            || self.same_as(&Self::data_const()) || self.same_as(&Self::linkedit())
            || self.same_as(&Self::dwarf()) || self.same_as(&Self::llvm());
        !read_only
    }
}

} // verus!
