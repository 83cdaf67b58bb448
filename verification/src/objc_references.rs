//! The Objective-C selector sends of an object: each live branch to a `_objc_msgSend$selector`
//! symbol, with the `__objc_methname` string that names the same selector.
use vstd::prelude::*;
use crate::relocations::{RelocationInfo, ARM64_RELOC_BRANCH26};
use crate::segment::bytes_equal;
use crate::symbols::{objc_message_selector, spec_objc_message_selector};
use crate::text::{find_byte, find_from, lemma_find_from};

verus! {

/// Why the selector sends of an object could not be collected.
#[derive(Debug, Clone, Copy, PartialEq, Eq)]
pub enum ObjcReferenceError {
    /// A symbol names a section the object does not have.
    InvalidSection,
    /// A selector string's offset does not fit `usize`.
    OffsetTooLarge,
    /// A selector send has no `__objc_methname` string of its selector.
    MissingSelectorSymbol,
}

/// Where a symbol of the object is defined: the section index, if any, and its offset there.
#[derive(Debug, Clone, Copy, PartialEq, Eq)]
pub struct SymbolPlacement {
    pub symbol_index: usize,
    pub section: Option<usize>,
    pub offset: u64,
}

/// An input section: whether it is `__objc_methname`, and its bytes.
#[derive(Debug)]
pub struct InputSectionText {
    pub is_methname: bool,
    pub data: Vec<u8>,
}

/// The NUL-terminated string at `offset` of `data`, without its NUL; none where no NUL follows.
pub open spec fn c_string_at(data: Seq<u8>, offset: int) -> Option<Seq<u8>> {
    if offset > data.len() {
        None
    } else {
        match find_from(data, offset, 0) {
            None => None,
            Some(end) => Some(data.subrange(offset, end)),
        }
    }
}

/// What symbol `p` says of `selector`: refused where it names no section of the object, a
/// match where it is defined in `__objc_methname` at exactly the selector's string.
pub open spec fn selector_match(p: SymbolPlacement, sections: Seq<InputSectionText>, selector: Seq<u8>) -> Result<
    bool,
    ObjcReferenceError,
> {
    match p.section {
        None => Ok(false),
        Some(s) => if s >= sections.len() {
            Err(ObjcReferenceError::InvalidSection)
        } else if !sections[s as int].is_methname {
            Ok(false)
        } else if p.offset > usize::MAX {
            Err(ObjcReferenceError::OffsetTooLarge)
        } else {
            Ok(c_string_at(sections[s as int].data@, p.offset as int) == Some(selector))
        },
    }
}

/// The first of the first `n` symbols that is the selector's string.
pub open spec fn first_selector_symbol(
    symbols: Seq<SymbolPlacement>,
    sections: Seq<InputSectionText>,
    selector: Seq<u8>,
    n: int,
) -> Result<Option<usize>, ObjcReferenceError>
    decreases n,
{
    if n <= 0 {
        Ok(None)
    } else {
        match first_selector_symbol(symbols, sections, selector, n - 1) {
            Err(e) => Err(e),
            Ok(Some(i)) => Ok(Some(i)),
            Ok(None) => match selector_match(symbols[n - 1], sections, selector) {
                Err(e) => Err(e),
                Ok(true) => Ok(Some(symbols[n - 1].symbol_index)),
                Ok(false) => Ok(None),
            },
        }
    }
}

/// The symbol whose `__objc_methname` string is exactly `selector`; a longer string that starts
/// with it is another selector.
pub fn objc_selector_symbol(symbols: &[SymbolPlacement], sections: &[InputSectionText], selector: &[u8]) -> (r:
    Result<Option<usize>, ObjcReferenceError>)
    ensures
        r == first_selector_symbol(symbols@, sections@, selector@, symbols@.len() as int),
{
    let mut i: usize = 0;
    while i < symbols.len()
        invariant
            0 <= i <= symbols@.len(),
            first_selector_symbol(symbols@, sections@, selector@, i as int) == Ok::<
                Option<usize>,
                ObjcReferenceError,
            >(None),
        decreases symbols@.len() - i,
    {
        let p = symbols[i];
        match selector_match_at(p, sections, selector) {
            Err(e) => {
                proof {
                    lemma_first_selector_symbol_stays(symbols@, sections@, selector@, i + 1, symbols@.len() as int);
                }
                return Err(e);
            },
            Ok(true) => {
                proof {
                    lemma_first_selector_symbol_stays(symbols@, sections@, selector@, i + 1, symbols@.len() as int);
                }
                return Ok(Some(p.symbol_index));
            },
            Ok(false) => {},
        }
        i = i + 1;
    }
    Ok(None)
}

/// Whether symbol `p` is the string of `selector`.
fn selector_match_at(p: SymbolPlacement, sections: &[InputSectionText], selector: &[u8]) -> (r: Result<
    bool,
    ObjcReferenceError,
>)
    ensures
        r == selector_match(p, sections@, selector@),
{
    let s = match p.section {
        None => {
            return Ok(false);
        },
        Some(s) => s,
    };
    if s >= sections.len() {
        return Err(ObjcReferenceError::InvalidSection);
    }
    if !sections[s].is_methname {
        return Ok(false);
    }
    if p.offset > usize::MAX as u64 {
        return Err(ObjcReferenceError::OffsetTooLarge);
    }
    let offset = p.offset as usize;
    let data = sections[s].data.as_slice();
    if offset > data.len() {
        return Ok(false);
    }
    match find_byte(data, offset, 0) {
        None => Ok(false),
        Some(end) => {
            proof {
                lemma_find_from(data@, offset as int, 0);
            }
            let text = vstd::slice::slice_subrange(data, offset, end);
            Ok(bytes_equal(text, selector))
        },
    }
}

/// Once the first `k` symbols decide, the first `n` decide the same way.
proof fn lemma_first_selector_symbol_stays(
    symbols: Seq<SymbolPlacement>,
    sections: Seq<InputSectionText>,
    selector: Seq<u8>,
    k: int,
    n: int,
)
    requires
        0 <= k <= n,
        first_selector_symbol(symbols, sections, selector, k) != Ok::<Option<usize>, ObjcReferenceError>(
            None,
        ),
    ensures
        first_selector_symbol(symbols, sections, selector, n) == first_selector_symbol(
            symbols,
            sections,
            selector,
            k,
        ),
    decreases n - k,
{
    if n > k {
        lemma_first_selector_symbol_stays(symbols, sections, selector, k, n - 1);
    }
}

/// A relocation of a loaded section of the object: its record, whether its storage is live, and
/// the name of the symbol it names.
#[derive(Debug)]
pub struct BranchRelocation {
    pub info: RelocationInfo,
    pub live: bool,
    pub symbol_name: Vec<u8>,
}

/// A selector send: the message symbol, its selector, and the selector's string symbol.
#[derive(Debug, PartialEq, Eq)]
pub struct ObjcMessageReference {
    pub message_symbol: usize,
    pub selector: Vec<u8>,
    pub selector_symbol: usize,
}

/// A selector send as a value.
pub open spec fn reference_value(r: ObjcMessageReference) -> (usize, Seq<u8>, usize) {
    (r.message_symbol, r.selector@, r.selector_symbol)
}

/// The selector sends among the first `n` relocations, each once, in the order first seen.
pub open spec fn spec_objc_message_references(
    relocations: Seq<BranchRelocation>,
    symbols: Seq<SymbolPlacement>,
    sections: Seq<InputSectionText>,
    n: int,
) -> Result<Seq<(usize, Seq<u8>, usize)>, ObjcReferenceError>
    decreases n,
{
    if n <= 0 {
        Ok(Seq::empty())
    } else {
        match spec_objc_message_references(relocations, symbols, sections, n - 1) {
            Err(e) => Err(e),
            Ok(refs) => {
                let r = relocations[n - 1];
                if !r.info.r_extern || r.info.r_type != ARM64_RELOC_BRANCH26 || !r.live {
                    Ok(refs)
                } else {
                    match spec_objc_message_selector(r.symbol_name@) {
                        None => Ok(refs),
                        Some(selector) => match first_selector_symbol(
                            symbols,
                            sections,
                            selector,
                            symbols.len() as int,
                        ) {
                            Err(e) => Err(e),
                            Ok(None) => Err(ObjcReferenceError::MissingSelectorSymbol),
                            Ok(Some(selector_symbol)) => {
                                let reference = (r.info.r_symbolnum as usize, selector, selector_symbol);
                                if refs.contains(reference) {
                                    Ok(refs)
                                } else {
                                    Ok(refs.push(reference))
                                }
                            },
                        },
                    }
                }
            },
        }
    }
}

/// Finds the live selector sends of an object: a branch to `_objc_msgSend$selector` is
/// redirected to a local stub that loads the selector from a reference to the
/// `__objc_methname` string with exactly that spelling, which must exist.
pub fn objc_message_references_for_object(
    relocations: &[BranchRelocation],
    symbols: &[SymbolPlacement],
    sections: &[InputSectionText],
) -> (r: Result<Vec<ObjcMessageReference>, ObjcReferenceError>)
    ensures
        match spec_objc_message_references(relocations@, symbols@, sections@, relocations@.len() as int) {
            Err(e) => r == Err::<Vec<ObjcMessageReference>, ObjcReferenceError>(e),
            Ok(refs) => r matches Ok(v) && v@.map_values(|x: ObjcMessageReference| reference_value(x))
                == refs,
        },
{
    let mut references: Vec<ObjcMessageReference> = Vec::new();
    assert(references@.map_values(|x: ObjcMessageReference| reference_value(x)) =~= Seq::empty());
    let mut i: usize = 0;
    while i < relocations.len()
        invariant
            0 <= i <= relocations@.len(),
            spec_objc_message_references(relocations@, symbols@, sections@, i as int) == Ok::<
                Seq<(usize, Seq<u8>, usize)>,
                ObjcReferenceError,
            >(references@.map_values(|x: ObjcMessageReference| reference_value(x))),
        decreases relocations@.len() - i,
    {
        let r = &relocations[i];
        if r.info.r_extern && r.info.r_type == ARM64_RELOC_BRANCH26 && r.live {
            match objc_message_selector(r.symbol_name.as_slice()) {
                None => {},
                Some(selector) => {
                    let selector_symbol = match objc_selector_symbol(symbols, sections, selector) {
                        Err(e) => {
                            proof {
                                lemma_references_error_stays(relocations@, symbols@, sections@, i + 1, relocations@.len() as int);
                            }
                            return Err(e);
                        },
                        Ok(None) => {
                            proof {
                                lemma_references_error_stays(relocations@, symbols@, sections@, i + 1, relocations@.len() as int);
                            }
                            return Err(ObjcReferenceError::MissingSelectorSymbol);
                        },
                        Ok(Some(s)) => s,
                    };
                    let message_symbol = r.info.r_symbolnum as usize;
                    let ghost value = (message_symbol, selector@, selector_symbol);
                    let ghost before = references@.map_values(|x: ObjcMessageReference| reference_value(x));
                    let mut seen = false;
                    let mut k: usize = 0;
                    while k < references.len()
                        invariant
                            0 <= k <= references@.len(),
                            before == references@.map_values(|x: ObjcMessageReference| reference_value(x)),
                            value == (message_symbol, selector@, selector_symbol),
                            seen <==> before.take(k as int).contains(value),
                        decreases references@.len() - k,
                    {
                        let existing = &references[k];
                        let same = existing.message_symbol == message_symbol && existing.selector_symbol
                            == selector_symbol && bytes_equal(existing.selector.as_slice(), selector);
                        proof {
                            assert(before[k as int] == reference_value(references@[k as int]));
                            assert(same <==> before[k as int] == value);
                            if same {
                                assert(before.take(k + 1)[k as int] == value);
                            }
                            assert(before.take(k + 1) =~= before.take(k as int).push(before[k as int]));
                            if before.take(k as int).contains(value) {
                                let w = choose|w: int| 0 <= w < k && #[trigger] before.take(k as int)[w] == value;
                                assert(before.take(k + 1)[w] == value);
                            }
                            if before.take(k + 1).contains(value) && !same {
                                let w = choose|w: int| 0 <= w < k + 1 && #[trigger] before.take(k + 1)[w] == value;
                                assert(w < k);
                                assert(before.take(k as int)[w] == value);
                            }
                        }
                        seen = seen || same;
                        k = k + 1;
                    }
                    assert(before.take(references@.len() as int) =~= before);
                    if !seen {
                        references.push(
                            ObjcMessageReference {
                                message_symbol,
                                selector: vstd::slice::slice_to_vec(selector),
                                selector_symbol,
                            },
                        );
                        assert(references@.map_values(|x: ObjcMessageReference| reference_value(x))
                            =~= before.push(value));
                    }
                },
            }
        }
        i = i + 1;
    }
    Ok(references)
}

/// Once the first `k` relocations are refused, the first `n` are refused the same way.
proof fn lemma_references_error_stays(
    relocations: Seq<BranchRelocation>,
    symbols: Seq<SymbolPlacement>,
    sections: Seq<InputSectionText>,
    k: int,
    n: int,
)
    requires
        0 <= k <= n,
        spec_objc_message_references(relocations, symbols, sections, k) is Err,
    ensures
        spec_objc_message_references(relocations, symbols, sections, n) == spec_objc_message_references(
            relocations,
            symbols,
            sections,
            k,
        ),
    decreases n - k,
{
    if n > k {
        lemma_references_error_stays(relocations, symbols, sections, k, n - 1);
    }
}

} // verus!
