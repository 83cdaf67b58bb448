//! Symbol-table entries of an object file: what an `nlist_64` record says of its symbol, with
//! the facts that the defining section adds.
use vstd::prelude::*;
use vstd::std_specs::bits::u64_leading_zeros;
use crate::sections::SymbolSectionProperties;

verus! {

/// The bits of `n_type` that mark a debugger entry.
pub const N_STAB: u8 = 0xe0;

/// The private-external bit of `n_type`.
pub const N_PEXT: u8 = 0x10;

/// The bits of `n_type` that hold the symbol's type.
pub const N_TYPE: u8 = 0x0e;

/// The external bit of `n_type`.
pub const N_EXT: u8 = 0x01;

/// An undefined symbol.
pub const N_UNDF: u8 = 0x0;

/// An absolute symbol.
pub const N_ABS: u8 = 0x2;

/// A symbol defined in a section.
pub const N_SECT: u8 = 0xe;

/// An indirect symbol.
pub const N_INDR: u8 = 0xa;

/// A weak reference, in `n_desc`.
pub const N_WEAK_REF: u16 = 0x0040;

/// A weak definition, in `n_desc`.
pub const N_WEAK_DEF: u16 = 0x0080;

/// The largest alignment exponent a tentative definition gets: that of a 16 KiB page.
pub const COMMON_MAX_ALIGNMENT_EXPONENT: u32 = 14;

/// The fields of an `nlist_64` record.
#[derive(Debug, Clone, Copy, PartialEq, Eq)]
pub struct RawSymtabEntry {
    pub n_strx: u32,
    pub n_type: u8,
    pub n_sect: u8,
    pub n_desc: u16,
    pub n_value: u64,
}

/// A symbol-table entry with the properties of the section that defines it.
#[derive(Debug, Clone, Copy, PartialEq, Eq)]
pub struct SymtabEntry {
    pub raw: RawSymtabEntry,
    pub section_properties: SymbolSectionProperties,
}

/// Whether a symbol may be seen from other images.
#[derive(Debug, Clone, Copy, PartialEq, Eq)]
pub enum Visibility {
    Default,
    Hidden,
}

/// A tentative definition: the size to allocate and the alignment exponent of the allocation.
#[derive(Debug, Clone, Copy, PartialEq, Eq)]
pub struct CommonSymbol {
    pub size: u64,
    pub alignment_exponent: u32,
}

/// How a symbol binds, as a debug description says it.
#[derive(Debug, Clone, Copy, PartialEq, Eq)]
pub enum SymbolBinding {
    Local,
    Weak,
    Global,
}

/// What a symbol is, as a debug description says it.
#[derive(Debug, Clone, Copy, PartialEq, Eq)]
pub enum SymbolKind {
    Stab,
    Common,
    Undefined,
    Absolute,
    Tls,
    Func,
    Data,
    Indirect,
    Unknown,
}

/// The type bits of `n_type`.
pub open spec fn symbol_type(n_type: u8) -> u8 {
    n_type & N_TYPE
}

/// Whether an entry has the form of a tentative definition: an external undefined symbol in no
/// section, whose nonzero value is its size.
pub open spec fn is_common_form(raw: RawSymtabEntry) -> bool {
    &&& raw.n_type & N_TYPE == N_UNDF
    &&& raw.n_type & N_EXT != 0
    &&& raw.n_sect == 0
    &&& raw.n_value != 0
}

/// The alignment exponent a tentative definition asks for in bits 8 to 11 of `n_desc`; zero
/// asks for none.
pub open spec fn requested_alignment_exponent(n_desc: u16) -> u32 {
    ((n_desc >> 8u16) & 0x0f) as u32
}

/// The exponent of the smallest power of two that is at least `size`: the bit length of
/// `size - 1`.
pub open spec fn natural_alignment_exponent(size: u64) -> u32 {
    (64 - u64_leading_zeros((size - 1) as u64)) as u32
}

/// The alignment exponent of a tentative definition: the requested one, or else the natural one
/// of its size, capped at a page.
pub open spec fn common_alignment_exponent(raw: RawSymtabEntry) -> u32 {
    let wanted = if requested_alignment_exponent(raw.n_desc) == 0 {
        natural_alignment_exponent(raw.n_value)
    } else {
        requested_alignment_exponent(raw.n_desc)
    };
    if wanted > COMMON_MAX_ALIGNMENT_EXPONENT {
        COMMON_MAX_ALIGNMENT_EXPONENT
    } else {
        wanted
    }
}

/// The tentative definition an entry makes, if it makes one: its size rounded up to its
/// alignment; none where that rounding overflows.
pub open spec fn spec_as_common(raw: RawSymtabEntry) -> Option<CommonSymbol> {
    if !is_common_form(raw) {
        None
    } else {
        let e = common_alignment_exponent(raw);
        let mask = ((1u64 << e) - 1) as u64;
        if raw.n_value + mask > u64::MAX {
            None
        } else {
            Some(CommonSymbol { size: ((raw.n_value + mask) as u64) & !mask, alignment_exponent: e })
        }
    }
}

/// Whether the entry is undefined as the object file reads it: not a debugger entry, and of the
/// undefined type.
pub open spec fn is_raw_undefined(raw: RawSymtabEntry) -> bool {
    raw.n_type & N_STAB == 0 && raw.n_type & N_TYPE == N_UNDF
}

impl SymtabEntry {
    /// An entry defined in a section with `section_properties`.
    pub fn from_raw(raw: RawSymtabEntry, section_properties: SymbolSectionProperties) -> (r: SymtabEntry)
        ensures
            r.raw == raw,
            r.section_properties == section_properties,
    {
        SymtabEntry { raw, section_properties }
    }

    /// The tentative definition the entry makes, if it makes one.
    pub fn as_common(&self) -> (r: Option<CommonSymbol>)
        ensures
            r == spec_as_common(self.raw),
    {
        let raw = self.raw;
        if raw.n_type & N_TYPE != N_UNDF || raw.n_type & N_EXT == 0 || raw.n_sect != 0
            || raw.n_value == 0 {
            return None;
        }
        let requested = ((raw.n_desc >> 8u16) & 0x0f) as u32;
        let natural = 64 - (raw.n_value - 1).leading_zeros();
        let wanted = if requested == 0 {
            natural
        } else {
            requested
        };
        let e = if wanted > COMMON_MAX_ALIGNMENT_EXPONENT {
            COMMON_MAX_ALIGNMENT_EXPONENT
        } else {
            wanted
        };
        assert(e == common_alignment_exponent(raw));
        assert(e <= 14);
        assert(1u64 << e >= 1) by (bit_vector)
            requires
                e <= 14,
        ;
        let mask = (1u64 << e) - 1;
        if raw.n_value > u64::MAX - mask {
            return None;
        }
        Some(CommonSymbol { size: (raw.n_value + mask) & !mask, alignment_exponent: e })
    }

    /// Whether the entry is an undefined reference: undefined, and not a tentative definition.
    pub fn is_undefined(&self) -> (r: bool)
        ensures
            r == (is_raw_undefined(self.raw) && spec_as_common(self.raw) is None),
    {
        self.raw.n_type & N_STAB == 0 && self.raw.n_type & N_TYPE == N_UNDF && self.as_common().is_none()
    }

    /// Whether the symbol is local to its object.
    pub fn is_local(&self) -> (r: bool)
        ensures
            r == (self.raw.n_type & N_EXT == 0),
    {
        self.raw.n_type & N_EXT == 0
    }

    /// Whether the symbol is absolute.
    pub fn is_absolute(&self) -> (r: bool)
        ensures
            r == (symbol_type(self.raw.n_type) == N_ABS),
    {
        self.raw.n_type & N_TYPE == N_ABS
    }

    /// Whether the symbol is a weak definition.
    pub fn is_weak(&self) -> (r: bool)
        ensures
            r == (self.raw.n_desc & N_WEAK_DEF != 0),
    {
        self.raw.n_desc & N_WEAK_DEF != 0
    }

    /// Whether the symbol is a weak reference to an undefined symbol.
    pub fn is_weak_reference(&self) -> (r: bool)
        ensures
            r == (symbol_type(self.raw.n_type) == N_UNDF && self.raw.n_desc & N_WEAK_REF != 0),
    {
        self.raw.n_type & N_TYPE == N_UNDF && self.raw.n_desc & N_WEAK_REF != 0
    }

    /// Whether the symbol is a private external, hidden from other images.
    pub open spec fn spec_visibility(self) -> Visibility {
        if self.raw.n_type & N_PEXT != 0 {
            Visibility::Hidden
        } else {
            Visibility::Default
        }
    }

    /// The symbol's visibility: hidden for a private external.
    pub fn visibility(&self) -> (r: Visibility)
        ensures
            r == self.spec_visibility(),
    {
        if self.raw.n_type & N_PEXT != 0 {
            Visibility::Hidden
        } else {
            Visibility::Default
        }
    }

    /// The symbol's value.
    pub fn value(&self) -> (r: u64)
        ensures
            r == self.raw.n_value,
    {
        self.raw.n_value
    }

    /// The size that common-symbol selection compares: the value, which is the allocation size
    /// of a tentative definition.
    pub fn size(&self) -> (r: u64)
        ensures
            r == self.raw.n_value,
    {
        self.raw.n_value
    }

    /// Whether the entry has a name in the string table.
    pub fn has_name(&self) -> (r: bool)
        ensures
            r == (self.raw.n_strx != 0),
    {
        self.raw.n_strx != 0
    }

    /// Whether the entry is an assembler-local label that is stripped by default.
    pub fn is_default_strippable(&self, name: &[u8]) -> (r: bool)
        ensures
            r == (self.raw.n_type & N_EXT == 0 && name@.len() >= 4 && name@.subrange(0, 4) =~= seq![
                0x6cu8,
                0x74,
                0x6d,
                0x70,
            ]),
    {
        self.is_local() && name.len() >= 4 && name[0] == 0x6c && name[1] == 0x74 && name[2] == 0x6d
            && name[3] == 0x70
    }

    /// Whether the symbol is defined in thread-local storage.
    pub fn is_tls(&self) -> (r: bool)
        ensures
            r == self.section_properties.is_tls,
    {
        self.section_properties.is_tls
    }

    /// Whether the symbol is defined in code.
    pub fn is_func(&self) -> (r: bool)
        ensures
            r == self.section_properties.is_func,
    {
        self.section_properties.is_func
    }

    /// Whether another image may interpose the symbol.
    pub fn is_interposable(&self) -> (r: bool)
        ensures
            r == (self.spec_visibility() == Visibility::Default),
    {
        match self.visibility() {
            Visibility::Default => true,
            Visibility::Hidden => false,
        }
    }

    /// Whether the symbol is hidden from other images.
    pub fn is_hidden(&self) -> (r: bool)
        ensures
            r == (self.spec_visibility() == Visibility::Hidden),
    {
        match self.visibility() {
            Visibility::Default => false,
            Visibility::Hidden => true,
        }
    }

    /// The entry with its private-external bit set or cleared.
    pub open spec fn spec_with_hidden(self, hidden: bool) -> SymtabEntry {
        SymtabEntry {
            raw: RawSymtabEntry {
                n_type: if hidden {
                    self.raw.n_type | N_PEXT
                } else {
                    self.raw.n_type & !N_PEXT
                },
                ..self.raw
            },
            ..self
        }
    }

    /// The same entry, hidden or visible as `hidden` says.
    pub fn with_hidden(self, hidden: bool) -> (r: SymtabEntry)
        ensures
            r == self.spec_with_hidden(hidden),
    {
        let mut entry = self;
        if hidden {
            entry.raw.n_type = entry.raw.n_type | N_PEXT;
        } else {
            entry.raw.n_type = entry.raw.n_type & !N_PEXT;
        }
        entry
    }

    /// The binding and kind that a debug description of the entry gives.
    pub fn debug_description(&self) -> (r: (SymbolBinding, SymbolKind))
        ensures
            r.0 == if self.raw.n_type & N_EXT == 0 {
                SymbolBinding::Local
            } else if self.raw.n_desc & N_WEAK_DEF != 0 {
                SymbolBinding::Weak
            } else {
                SymbolBinding::Global
            },
            r.1 == if self.raw.n_type & N_STAB != 0 {
                SymbolKind::Stab
            } else if spec_as_common(self.raw) is Some {
                SymbolKind::Common
            } else if is_raw_undefined(self.raw) {
                SymbolKind::Undefined
            } else if symbol_type(self.raw.n_type) == N_ABS {
                SymbolKind::Absolute
            } else if symbol_type(self.raw.n_type) == N_SECT {
                if self.section_properties.is_tls {
                    SymbolKind::Tls
                } else if self.section_properties.is_func {
                    SymbolKind::Func
                } else {
                    SymbolKind::Data
                }
            } else if symbol_type(self.raw.n_type) == N_INDR {
                SymbolKind::Indirect
            } else {
                SymbolKind::Unknown
            },
    {
        let binding = if self.is_local() {
            SymbolBinding::Local
        } else if self.is_weak() {
            SymbolBinding::Weak
        } else {
            SymbolBinding::Global
        };
        let typ = self.raw.n_type & N_TYPE;
        let kind = if self.raw.n_type & N_STAB != 0 {
            SymbolKind::Stab
        } else if self.as_common().is_some() {
            SymbolKind::Common
        } else if self.is_undefined() {
            SymbolKind::Undefined
        } else if typ == N_ABS {
            SymbolKind::Absolute
        } else if typ == N_SECT {
            if self.is_tls() {
                SymbolKind::Tls
            } else if self.is_func() {
                SymbolKind::Func
            } else {
                SymbolKind::Data
            }
        } else if typ == N_INDR {
            SymbolKind::Indirect
        } else {
            SymbolKind::Unknown
        };
        (binding, kind)
    }
}

/// A tentative definition's allocation is a multiple of its alignment that holds its whole
/// size and wastes less than one alignment unit.
pub proof fn lemma_common_allocation_fits(raw: RawSymtabEntry)
    requires
        spec_as_common(raw) is Some,
    ensures
        ({
            let c = spec_as_common(raw)->0;
            let alignment = (1u64 << c.alignment_exponent) as int;
            &&& c.alignment_exponent <= COMMON_MAX_ALIGNMENT_EXPONENT
            &&& (c.size as int) % alignment == 0
            &&& raw.n_value <= c.size < raw.n_value + alignment
        }),
{
    let e = common_alignment_exponent(raw);
    let v = raw.n_value;
    assert(e <= 14);
    vstd::arithmetic::power2::lemma2_to64();
    if e < 14 {
        vstd::arithmetic::power2::lemma_pow2_strictly_increases(e as nat, 14);
    }
    vstd::arithmetic::power2::lemma_pow2_pos(e as nat);
    vstd::bits::lemma_u64_shl_is_mul(1, e as u64);
    let a = 1u64 << e;
    assert(a as int == vstd::arithmetic::power2::pow2(e as nat));
    let m = (a - 1) as u64;
    assert(m == vstd::bits::low_bits_mask(e as nat));
    let x = (v + m) as u64;
    let size = x & !m;
    assert(size + (x & m) == x && (x & m) <= m && size & m == 0) by (bit_vector)
        requires
            size == x & !m,
    ;
    vstd::bits::lemma_u64_low_bits_mask_is_mod(size, e as nat);
    vstd::bits::lemma_u64_low_bits_mask_is_mod(x, e as nat);
    assert(spec_as_common(raw)->0.size == size);
}

/// Hiding or showing an entry sets exactly its visibility.
pub proof fn lemma_with_hidden_sets_visibility(entry: SymtabEntry, hidden: bool)
    ensures
        entry.spec_with_hidden(hidden).spec_visibility() == if hidden {
            Visibility::Hidden
        } else {
            Visibility::Default
        },
        entry.spec_with_hidden(hidden).section_properties == entry.section_properties,
        entry.spec_with_hidden(hidden).raw.n_type & !N_PEXT == entry.raw.n_type & !N_PEXT,
{
    let t = entry.raw.n_type;
    assert((t | N_PEXT) & N_PEXT != 0) by (bit_vector);
    assert((t & !N_PEXT) & N_PEXT == 0) by (bit_vector);
    assert((t | N_PEXT) & !N_PEXT == t & !N_PEXT) by (bit_vector);
    assert((t & !N_PEXT) & !N_PEXT == t & !N_PEXT) by (bit_vector);
}

} // verus!
