//! Symbol-level decisions: Objective-C selector stubs, what an export record points at, which
//! storage dyld binds for an import, weak libraries, and the exported symbols of an atom.
use vstd::prelude::*;
use std::ops::Range;
use crate::relocations::partition_point_below;
use crate::sorting::{sorted_by_key, SortKey};

verus! {

/// `_objc_msgSend$`.
pub open spec fn objc_msg_send_prefix() -> Seq<u8> {
    seq![95u8, 111, 98, 106, 99, 95, 109, 115, 103, 83, 101, 110, 100, 36]
}

/// The selector of Clang's modern-message-dispatch symbol `_objc_msgSend$selector`, or `None`
/// for any other name or an empty selector.
pub open spec fn spec_objc_message_selector(name: Seq<u8>) -> Option<Seq<u8>> {
    let p = objc_msg_send_prefix();
    if name.len() > p.len() && name.subrange(0, p.len() as int) == p {
        Some(name.subrange(p.len() as int, name.len() as int))
    } else {
        None
    }
}

/// Returns the selector of an `_objc_msgSend$selector` symbol; ld64 binds `_objc_msgSend`
/// and emits a local veneer for it. An empty selector is not accepted.
pub fn objc_message_selector(name: &[u8]) -> (r: Option<&[u8]>)
    ensures
        match spec_objc_message_selector(name@) {
            None => r is None,
            Some(s) => r matches Some(x) && x@ == s,
        },
{
    let prefix: [u8; 14] = [95u8, 111, 98, 106, 99, 95, 109, 115, 103, 83, 101, 110, 100, 36];
    assert(prefix@ =~= objc_msg_send_prefix());
    if name.len() > 14 && crate::text::starts_with_at(name, 0, name.len(), prefix.as_slice()) {
        Some(vstd::slice::slice_subrange(name, 14, name.len()))
    } else {
        None
    }
}

/// The storage dyld binds for an imported symbol: a GOT slot (with its stub, if calls go
/// through one) or a thread-variable pointer slot.
#[derive(Debug, Clone, Copy, PartialEq, Eq)]
pub enum ImportedSymbolBinding {
    Got { got_address: u64, plt_address: Option<u64> },
    Tlvp { tlvp_address: u64 },
}

impl ImportedSymbolBinding {
    /// The address of the slot dyld binds.
    pub fn address(self) -> (r: u64)
        ensures
            r == match self {
                ImportedSymbolBinding::Got { got_address, .. } => got_address,
                ImportedSymbolBinding::Tlvp { tlvp_address } => tlvp_address,
            },
    {
        match self {
            ImportedSymbolBinding::Got { got_address, .. } => got_address,
            ImportedSymbolBinding::Tlvp { tlvp_address } => tlvp_address,
        }
    }
}

/// A dynamically imported symbol: the install name of the library that provides it, its bound
/// storage, and whether every use of it is a weak reference.
#[derive(Debug)]
pub struct ImportedSymbol {
    pub install_name: Vec<u8>,
    pub binding: ImportedSymbolBinding,
    pub weak_import: bool,
}

/// Whether a library is loaded weakly: some symbol is imported from it and every such symbol
/// is a weak import.
pub open spec fn spec_library_is_weak(imports: Seq<ImportedSymbol>, install_name: Seq<u8>) -> bool {
    &&& exists|i: int| 0 <= i < imports.len() && (#[trigger] imports[i]).install_name@ == install_name
    &&& forall|i: int|
        0 <= i < imports.len() && (#[trigger] imports[i]).install_name@ == install_name
            ==> imports[i].weak_import
}

/// Whether the library with this install name is loaded weakly (`LC_LOAD_WEAK_DYLIB`): it has
/// an import and all of its imports are weak.
pub fn imported_library_is_weak(imports: &[ImportedSymbol], install_name: &[u8]) -> (r: bool)
    ensures
        r == spec_library_is_weak(imports@, install_name@),
{
    let mut has_import = false;
    let mut i: usize = 0;
    while i < imports.len()
        invariant
            0 <= i <= imports@.len(),
            has_import == exists|j: int|
                0 <= j < i && (#[trigger] imports@[j]).install_name@ == install_name@,
            forall|j: int|
                0 <= j < i && (#[trigger] imports@[j]).install_name@ == install_name@
                    ==> imports@[j].weak_import,
        decreases imports@.len() - i,
    {
        if crate::segment::bytes_equal(imports[i].install_name.as_slice(), install_name) {
            if !imports[i].weak_import {
                return false;
            }
            has_import = true;
        }
        i = i + 1;
    }
    has_import
}

/// Where a symbol resolved to: its relocation value, its dynamic-symbol index if it is
/// dynamic, its own definition address, and the GOT, TLVP and stub slots allocated for it.
#[derive(Debug, Clone, Copy, PartialEq, Eq)]
pub struct Resolution {
    pub raw_value: u64,
    pub dynamic_symbol_index: Option<u32>,
    pub symbol_address: u64,
    pub got_address: Option<u64>,
    pub tlvp_address: Option<u64>,
    pub plt_address: Option<u64>,
}

/// The address an export record names: a local definition without a stub exports its own
/// address (its relocation value may be a GOT slot); dynamic and stub-backed symbols keep their
/// relocation value.
pub fn export_symbol_address(resolution: &Resolution) -> (r: u64)
    ensures
        r == if resolution.dynamic_symbol_index is None && resolution.plt_address is None {
            resolution.symbol_address
        } else {
            resolution.raw_value
        },
{
    if resolution.dynamic_symbol_index.is_none() && resolution.plt_address.is_none() {
        resolution.symbol_address
    } else {
        resolution.raw_value
    }
}

/// An exported symbol of an object, by its offset in the input.
#[derive(Debug, Clone, Copy, PartialEq, Eq)]
pub struct ExportedSymbol {
    pub input_offset: u64,
    pub symbol_index: usize,
}

impl SortKey for ExportedSymbol {
    open spec fn spec_sort_key(&self) -> u64 {
        self.input_offset
    }

    fn sort_key(&self) -> (r: u64) {
        self.input_offset
    }
}

/// The exported symbols, ordered by offset, that lie in `range`; all of them when there is no
/// range.
pub fn exported_symbols_in_range<'a>(
    exported_symbols: &'a [ExportedSymbol],
    range: Option<&Range<u64>>,
) -> (r: &'a [ExportedSymbol])
    requires
        sorted_by_key(exported_symbols@),
        range matches Some(rg) ==> rg.start <= rg.end,
    ensures
        range is None ==> r@ == exported_symbols@,
        range matches Some(rg) ==> exists|a: int, b: int|
            0 <= a <= b <= exported_symbols@.len() && r@ == exported_symbols@.subrange(a, b)
                && (forall|i: int|
                0 <= i < a ==> (#[trigger] exported_symbols@[i]).input_offset < rg.start) && (
            forall|i: int|
                b <= i < exported_symbols@.len() ==> (#[trigger] exported_symbols@[i]).input_offset
                    >= rg.end) && (forall|i: int|
                a <= i < b ==> rg.start <= (#[trigger] exported_symbols@[i]).input_offset < rg.end),
{
    let range = match range {
        None => {
            return exported_symbols;
        },
        Some(range) => range,
    };
    let a = partition_point_below(exported_symbols, range.start);
    let b = partition_point_below(exported_symbols, range.end);
    proof {
        if b < a {
            assert(exported_symbols@[b as int].spec_sort_key() >= range.start);
        }
    }
    vstd::slice::slice_subrange(exported_symbols, a, b)
}

/// An export record whose address is absolute rather than image-relative.
pub const EXPORT_SYMBOL_FLAGS_KIND_ABSOLUTE: u32 = 0x02;

/// An export record of a weak definition.
pub const EXPORT_SYMBOL_FLAGS_WEAK_DEFINITION: u32 = 0x04;

/// What the exports trie records of one symbol: its address and its flags.
#[derive(Debug, Clone, Copy, PartialEq, Eq)]
pub struct ExportTrieSymbol {
    pub address: u64,
    pub flags: u32,
}

/// An exported symbol as the trie needs it: its resolution, whether the resolution is absolute,
/// and whether the symbol is a weak definition of an object.
#[derive(Debug, Clone, Copy, PartialEq, Eq)]
pub struct ExportCandidate {
    pub resolution: Resolution,
    pub is_absolute: bool,
    pub is_weak: bool,
}

/// Why an exports trie could not be built.
#[derive(Debug, Clone, Copy, PartialEq, Eq)]
pub enum ExportError {
    /// An exported address lies below the image base.
    BeforeImageBase,
}

/// The export address of a resolution, as `export_symbol_address` gives it.
pub open spec fn spec_export_address(r: Resolution) -> u64 {
    if r.dynamic_symbol_index is None && r.plt_address is None {
        r.symbol_address
    } else {
        r.raw_value
    }
}

/// The trie record of a symbol: an absolute symbol keeps its address, any other is recorded
/// relative to the image base; weak definitions say so.
pub open spec fn spec_export_trie_symbol(c: ExportCandidate, image_base: u64) -> Result<
    ExportTrieSymbol,
    ExportError,
> {
    let address = spec_export_address(c.resolution);
    let weak = if c.is_weak {
        EXPORT_SYMBOL_FLAGS_WEAK_DEFINITION
    } else {
        0
    };
    if c.is_absolute {
        Ok(ExportTrieSymbol { address, flags: EXPORT_SYMBOL_FLAGS_KIND_ABSOLUTE | weak })
    } else if address < image_base {
        Err(ExportError::BeforeImageBase)
    } else {
        Ok(ExportTrieSymbol { address: (address - image_base) as u64, flags: weak })
    }
}

/// A symbol that is not absolute is recorded at its distance from the image base, so adding the
/// image base back gives its export address; an absolute symbol keeps its address and is marked
/// absolute; only a weak definition carries the weak flag.
pub proof fn lemma_export_trie_symbol_address(c: ExportCandidate, image_base: u64)
    ensures
        spec_export_trie_symbol(c, image_base) matches Ok(sym) ==> ({
            &&& !c.is_absolute ==> sym.address + image_base == spec_export_address(c.resolution)
                && sym.flags & 0x02 == 0
            &&& c.is_absolute ==> sym.address == spec_export_address(c.resolution) && sym.flags & 0x02
                == 0x02
            &&& (sym.flags & 0x04 == 0x04) == c.is_weak
        }),
        !c.is_absolute ==> (spec_export_trie_symbol(c, image_base) is Err <==> spec_export_address(
            c.resolution,
        ) < image_base),
{
    assert((0x02u32 | 0x04u32) & 0x02 == 0x02 && (0x02u32 | 0u32) & 0x02 == 0x02 && 0x04u32 & 0x02
        == 0 && 0u32 & 0x02 == 0 && (0x02u32 | 0x04u32) & 0x04 == 0x04 && (0x02u32 | 0u32) & 0x04
        == 0 && 0x04u32 & 0x04 == 0x04 && 0u32 & 0x04 == 0) by (bit_vector);
}

/// The trie record of one exported symbol.
pub fn export_trie_symbol(candidate: &ExportCandidate, image_base: u64) -> (r: Result<
    ExportTrieSymbol,
    ExportError,
>)
    ensures
        r == spec_export_trie_symbol(*candidate, image_base),
{
    let address = export_symbol_address(&candidate.resolution);
    let weak = if candidate.is_weak {
        EXPORT_SYMBOL_FLAGS_WEAK_DEFINITION
    } else {
        0
    };
    if candidate.is_absolute {
        return Ok(ExportTrieSymbol { address, flags: EXPORT_SYMBOL_FLAGS_KIND_ABSOLUTE | weak });
    }
    if address < image_base {
        return Err(ExportError::BeforeImageBase);
    }
    Ok(ExportTrieSymbol { address: address - image_base, flags: weak })
}

/// The trie records of the first `n` exported symbols, or the first that cannot be recorded.
pub open spec fn spec_export_trie_symbols(candidates: Seq<ExportCandidate>, image_base: u64, n: int) -> Result<
    Seq<ExportTrieSymbol>,
    ExportError,
>
    decreases n,
{
    if n <= 0 {
        Ok(Seq::empty())
    } else {
        match spec_export_trie_symbols(candidates, image_base, n - 1) {
            Err(e) => Err(e),
            Ok(prev) => match spec_export_trie_symbol(candidates[n - 1], image_base) {
                Err(e) => Err(e),
                Ok(s) => Ok(prev.push(s)),
            },
        }
    }
}

/// The trie records of every exported symbol, in order, for an image based at `image_base`.
pub fn export_trie_symbols(candidates: &[ExportCandidate], image_base: u64) -> (r: Result<
    Vec<ExportTrieSymbol>,
    ExportError,
>)
    ensures
        match spec_export_trie_symbols(candidates@, image_base, candidates@.len() as int) {
            Ok(symbols) => r matches Ok(v) && v@ == symbols,
            Err(e) => r == Err::<Vec<ExportTrieSymbol>, ExportError>(e),
        },
{
    let mut symbols: Vec<ExportTrieSymbol> = Vec::new();
    let mut i: usize = 0;
    while i < candidates.len()
        invariant
            0 <= i <= candidates@.len(),
            spec_export_trie_symbols(candidates@, image_base, i as int) == Ok::<
                Seq<ExportTrieSymbol>,
                ExportError,
            >(symbols@),
        decreases candidates@.len() - i,
    {
        match export_trie_symbol(&candidates[i], image_base) {
            Err(e) => {
                proof {
                    lemma_export_error_stays(candidates@, image_base, i + 1, candidates@.len() as int);
                }
                return Err(e);
            },
            Ok(s) => {
                symbols.push(s);
            },
        }
        i = i + 1;
    }
    Ok(symbols)
}

/// Once the first `k` symbols hold one that cannot be recorded, the first `n` fail the same way.
proof fn lemma_export_error_stays(candidates: Seq<ExportCandidate>, image_base: u64, k: int, n: int)
    requires
        0 <= k <= n,
        spec_export_trie_symbols(candidates, image_base, k) is Err,
    ensures
        spec_export_trie_symbols(candidates, image_base, n) == spec_export_trie_symbols(
            candidates,
            image_base,
            k,
        ),
    decreases n - k,
{
    if n > k {
        lemma_export_error_stays(candidates, image_base, k, n - 1);
    }
}

} // verus!
