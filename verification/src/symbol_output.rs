//! The output `nlist_64` fields of a copied input symbol: which output section it names, its
//! type, its description bits and its address.
use crate::symtab::{spec_as_common, symbol_type, SymtabEntry, N_ABS, N_INDR, N_SECT};
use vstd::prelude::*;

verus! {

/// The fields of an output `nlist_64` record other than its name.
#[derive(Debug, Clone, Copy, PartialEq, Eq)]
pub struct NlistFields {
    pub n_sect: u8,
    pub n_type: u8,
    pub n_desc: u16,
    pub n_value: u64,
}

/// Why a symbol could not be written.
#[derive(Debug, Clone, Copy, PartialEq, Eq)]
pub enum SymbolWriteError {
    /// An indirect symbol's target is not a known symbol.
    MissingIndirectTarget,
    /// An indirect symbol's target lies in a section that was not loaded.
    IndirectTargetDiscarded,
    /// An indirect symbol's target is neither in a section nor a common symbol.
    IndirectTargetNotInSection,
    /// An indirect symbol's target has no address.
    IndirectTargetUnresolved,
    /// The symbol lies in a section that was not loaded.
    SectionNotLoaded,
    /// The output section of the symbol has no Mach-O section number.
    NoSectionIndex,
    /// `__DATA,__common` has no Mach-O section number.
    NoCommonSectionIndex,
    /// The symbol is neither in a section, absolute nor common.
    UnexpectedSymbolType,
    /// The symbol's bytes have no place in the output.
    NoOutputOffset,
    /// The symbol's address does not fit in 64 bits.
    AddressOverflow,
}

/// Where the input section of a symbol went.
#[derive(Debug, Clone, Copy, PartialEq, Eq)]
pub enum SectionFact {
    /// The section was not loaded.
    NotLoaded,
    /// The section was loaded: the Mach-O number of its output section, whether it was copied
    /// as it is (not merged as strings), the section's output address, and the offset in the
    /// output of the symbol's input offset.
    Loaded {
        output_index: Option<u8>,
        copied: bool,
        address: Option<u64>,
        output_offset: Option<u64>,
    },
}

/// Where the target of an indirect symbol is defined.
#[derive(Debug, Clone, Copy, PartialEq, Eq)]
pub enum TargetPlacement {
    /// In a loaded section, whose output section has this Mach-O number, if any.
    Section(Option<u8>),
    /// In a section that was not loaded.
    DiscardedSection,
    /// A common symbol.
    Common,
    /// Neither in a section nor common.
    Other,
}

/// The target of an indirect symbol: where it is defined and its resolved address.
#[derive(Debug, Clone, Copy, PartialEq, Eq)]
pub struct IndirectTarget {
    pub placement: TargetPlacement,
    pub address: Option<u64>,
}

/// The resolution of a symbol: the value it gets in the symbol table and its address.
#[derive(Debug, Clone, Copy, PartialEq, Eq)]
pub struct SymbolResolution {
    pub table_value: u64,
    pub symbol_address: u64,
}

/// `n_type` with its type bits replaced by `t`.
pub open spec fn with_type(n_type: u8, t: u8) -> u8 {
    (n_type & 0xf1u8) | t
}

/// The section number, type and description of the output record, or why there is none:
/// an indirect alias becomes a section definition at its target's section (a common target's
/// is `__common`); a section symbol keeps its description in its output section; an absolute
/// symbol stays absolute; a common becomes a definition in `__common` with its description
/// cleared.
pub open spec fn spec_nlist_kind(
    entry: SymtabEntry,
    section: Option<SectionFact>,
    common_index: Option<u8>,
    indirect: Option<IndirectTarget>,
) -> Result<(u8, u8, u16), SymbolWriteError> {
    let n_type = entry.raw.n_type;
    let n_desc = entry.raw.n_desc;
    if symbol_type(n_type) == N_INDR {
        match indirect {
            None => Err(SymbolWriteError::MissingIndirectTarget),
            Some(target) => match target.placement {
                TargetPlacement::Section(Some(i)) => Ok((i, with_type(n_type, N_SECT), n_desc)),
                TargetPlacement::Section(None) => Err(SymbolWriteError::NoSectionIndex),
                TargetPlacement::DiscardedSection => Err(SymbolWriteError::IndirectTargetDiscarded),
                TargetPlacement::Common => match common_index {
                    Some(i) => Ok((i, with_type(n_type, N_SECT), n_desc)),
                    None => Err(SymbolWriteError::NoCommonSectionIndex),
                },
                TargetPlacement::Other => Err(SymbolWriteError::IndirectTargetNotInSection),
            },
        }
    } else {
        match section {
            Some(SectionFact::NotLoaded) => Err(SymbolWriteError::SectionNotLoaded),
            Some(SectionFact::Loaded { output_index: None, .. }) => Err(SymbolWriteError::NoSectionIndex),
            Some(SectionFact::Loaded { output_index: Some(i), .. }) => Ok((i, with_type(n_type, N_SECT), n_desc)),
            None => if symbol_type(n_type) == N_ABS {
                Ok((0u8, with_type(n_type, N_ABS), n_desc))
            } else if spec_as_common(entry.raw) is Some {
                match common_index {
                    Some(i) => Ok((i, with_type(n_type, N_SECT), 0u16)),
                    None => Err(SymbolWriteError::NoCommonSectionIndex),
                }
            } else {
                Err(SymbolWriteError::UnexpectedSymbolType)
            },
        }
    }
}

/// The address of the output record: an indirect alias takes its target's address; a resolved
/// symbol takes its symbol-table value (a common, its allocated address); an unresolved symbol
/// of a copied section takes the section's address plus its output offset; any other, zero.
pub open spec fn spec_nlist_value(
    entry: SymtabEntry,
    section: Option<SectionFact>,
    indirect: Option<IndirectTarget>,
    resolution: Option<SymbolResolution>,
) -> Result<u64, SymbolWriteError> {
    if symbol_type(entry.raw.n_type) == N_INDR {
        match indirect {
            Some(IndirectTarget { address: Some(a), .. }) => Ok(a),
            _ => Err(SymbolWriteError::IndirectTargetUnresolved),
        }
    } else {
        match resolution {
            Some(res) => Ok(
                if spec_as_common(entry.raw) is Some {
                    res.symbol_address
                } else {
                    res.table_value
                },
            ),
            None => match section {
                Some(SectionFact::Loaded { copied: true, output_offset, address, .. }) => match output_offset {
                    None => Err(SymbolWriteError::NoOutputOffset),
                    Some(off) => match address {
                        Some(base) => if base + off <= u64::MAX {
                            Ok((base + off) as u64)
                        } else {
                            Err(SymbolWriteError::AddressOverflow)
                        },
                        None => Err(SymbolWriteError::AddressOverflow),
                    },
                },
                _ => Ok(0u64),
            },
        }
    }
}

/// The output record of a copied symbol, or the first reason it cannot be written.
pub open spec fn spec_output_nlist_fields(
    entry: SymtabEntry,
    section: Option<SectionFact>,
    common_index: Option<u8>,
    indirect: Option<IndirectTarget>,
    resolution: Option<SymbolResolution>,
) -> Result<NlistFields, SymbolWriteError> {
    match spec_nlist_kind(entry, section, common_index, indirect) {
        Err(e) => Err(e),
        Ok((n_sect, n_type, n_desc)) => match spec_nlist_value(entry, section, indirect, resolution) {
            Err(e) => Err(e),
            Ok(n_value) => Ok(NlistFields { n_sect, n_type, n_desc, n_value }),
        },
    }
}

/// The output `nlist_64` fields of a copied input symbol. `section` is where the symbol's own
/// section went, if it is in one; `common_index` is the Mach-O number of `__DATA,__common`;
/// `indirect` is the target of an `N_INDR` alias; `resolution` is the symbol's resolution, if
/// it has one.
pub fn output_nlist_fields(
    entry: &SymtabEntry,
    section: Option<SectionFact>,
    common_index: Option<u8>,
    indirect: Option<IndirectTarget>,
    resolution: Option<SymbolResolution>,
) -> (r: Result<NlistFields, SymbolWriteError>)
    ensures
        r == spec_output_nlist_fields(*entry, section, common_index, indirect, resolution),
{
    let n_type = entry.raw.n_type;
    let n_desc = entry.raw.n_desc;
    let is_indirect = n_type & 0x0eu8 == N_INDR;
    let type_section = (n_type & 0xf1u8) | N_SECT;
    let kind: (u8, u8, u16) = if is_indirect {
        match indirect {
            None => {
                return Err(SymbolWriteError::MissingIndirectTarget);
            },
            Some(target) => match target.placement {
                TargetPlacement::Section(Some(i)) => (i, type_section, n_desc),
                TargetPlacement::Section(None) => {
                    return Err(SymbolWriteError::NoSectionIndex);
                },
                TargetPlacement::DiscardedSection => {
                    return Err(SymbolWriteError::IndirectTargetDiscarded);
                },
                TargetPlacement::Common => match common_index {
                    Some(i) => (i, type_section, n_desc),
                    None => {
                        return Err(SymbolWriteError::NoCommonSectionIndex);
                    },
                },
                TargetPlacement::Other => {
                    return Err(SymbolWriteError::IndirectTargetNotInSection);
                },
            },
        }
    } else {
        match section {
            Some(SectionFact::NotLoaded) => {
                return Err(SymbolWriteError::SectionNotLoaded);
            },
            Some(SectionFact::Loaded { output_index: None, .. }) => {
                return Err(SymbolWriteError::NoSectionIndex);
            },
            Some(SectionFact::Loaded { output_index: Some(i), .. }) => (i, type_section, n_desc),
            None => if entry.is_absolute() {
                (0u8, (n_type & 0xf1u8) | N_ABS, n_desc)
            } else if entry.as_common().is_some() {
                match common_index {
                    Some(i) => (i, type_section, 0u16),
                    None => {
                        return Err(SymbolWriteError::NoCommonSectionIndex);
                    },
                }
            } else {
                return Err(SymbolWriteError::UnexpectedSymbolType);
            },
        }
    };
    let n_value: u64 = if is_indirect {
        match indirect {
            Some(IndirectTarget { address: Some(a), .. }) => a,
            _ => {
                return Err(SymbolWriteError::IndirectTargetUnresolved);
            },
        }
    } else {
        match resolution {
            Some(res) => if entry.as_common().is_some() {
                res.symbol_address
            } else {
                res.table_value
            },
            None => match section {
                Some(SectionFact::Loaded { copied: true, output_offset, address, .. }) => match output_offset {
                    None => {
                        return Err(SymbolWriteError::NoOutputOffset);
                    },
                    Some(off) => match address {
                        Some(base) => match base.checked_add(off) {
                            Some(v) => v,
                            None => {
                                return Err(SymbolWriteError::AddressOverflow);
                            },
                        },
                        None => {
                            return Err(SymbolWriteError::AddressOverflow);
                        },
                    },
                },
                _ => 0u64,
            },
        }
    };
    Ok(NlistFields { n_sect: kind.0, n_type: kind.1, n_desc: kind.2, n_value })
}

/// Replacing the type bits gives a record of that type and keeps the other bits.
pub proof fn lemma_with_type(n_type: u8, t: u8)
    requires
        t & 0xf1u8 == 0,
    ensures
        symbol_type(with_type(n_type, t)) == t,
        with_type(n_type, t) & 0xf1u8 == n_type & 0xf1u8,
{
    assert(((n_type & 0xf1u8) | t) & 0x0eu8 == t) by (bit_vector)
        requires
            t & 0xf1u8 == 0,
    ;
    assert(((n_type & 0xf1u8) | t) & 0xf1u8 == n_type & 0xf1u8) by (bit_vector)
        requires
            t & 0xf1u8 == 0,
    ;
}

/// An indirect alias is written as a section definition, keeping its other type bits and its
/// description, at its target's address.
pub proof fn lemma_indirect_alias_takes_target_address(
    entry: SymtabEntry,
    section: Option<SectionFact>,
    common_index: Option<u8>,
    target: IndirectTarget,
    resolution: Option<SymbolResolution>,
)
    requires
        symbol_type(entry.raw.n_type) == N_INDR,
        spec_output_nlist_fields(entry, section, common_index, Some(target), resolution) is Ok,
    ensures
        ({
            let f = spec_output_nlist_fields(entry, section, common_index, Some(target), resolution)->Ok_0;
            &&& target.address == Some(f.n_value)
            &&& symbol_type(f.n_type) == N_SECT
            &&& f.n_type & 0xf1u8 == entry.raw.n_type & 0xf1u8
            &&& f.n_desc == entry.raw.n_desc
        }),
{
    assert(N_SECT & 0xf1u8 == 0) by (bit_vector);
    lemma_with_type(entry.raw.n_type, N_SECT);
}

/// A common symbol outside any section is written as a definition in `__common` with its
/// description cleared, and it is written whenever `__common` has a section number.
pub proof fn lemma_common_becomes_common_section_definition(
    entry: SymtabEntry,
    common_index: u8,
    resolution: Option<SymbolResolution>,
)
    requires
        symbol_type(entry.raw.n_type) != N_INDR,
        symbol_type(entry.raw.n_type) != N_ABS,
        spec_as_common(entry.raw) is Some,
    ensures
        ({
            let r = spec_output_nlist_fields(entry, None, Some(common_index), None, resolution);
            &&& r is Ok
            &&& r->Ok_0.n_sect == common_index
            &&& symbol_type(r->Ok_0.n_type) == N_SECT
            &&& r->Ok_0.n_desc == 0
            &&& r->Ok_0.n_value == match resolution {
                Some(res) => res.symbol_address,
                None => 0u64,
            }
        }),
{
    assert(N_SECT & 0xf1u8 == 0) by (bit_vector);
    lemma_with_type(entry.raw.n_type, N_SECT);
}

} // verus!
