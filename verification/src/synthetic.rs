//! The code and data the linker synthesizes: dyld symbol stubs, ld64's Objective-C selector
//! stubs with their selector references, and branch islands.
//!
//! Each writer first checks every entry and only then writes, so a failure leaves the output
//! as it was.
use vstd::prelude::*;
use std::collections::BTreeMap;
use vstd::std_specs::iter::IteratorSpec;
use crate::aarch64::{
    page_of,
    patched_instruction,
    stub_bytes,
    thunk_bytes,
    wrap_sub,
    write_objc_stub_address,
    write_plt_entry,
    write_thunk,
    AArch64Instruction,
    RelocationError,
    PAGE_MASK_4KB,
    PLT_ENTRY_SIZE,
    SIZE_4KB,
    THUNK_SIZE,
};
use crate::bytes::{push_u32, splice, u32_le_bytes, u64_le_bytes, write_bytes_at, write_u64_at};
use crate::symbols::{ImportedSymbol, ImportedSymbolBinding};

verus! {

broadcast use vstd::std_specs::btree::group_btree_axioms;

/// The size of one Objective-C selector stub.
pub const OBJC_MESSAGE_STUB_SIZE: usize = 32;
/// The size of one selector reference.
pub const OBJC_SELECTOR_REFERENCE_SIZE: usize = 8;
/// `ADRP x1, 0`.
pub const ADRP_X1: u32 = 0x9000_0001;
/// `LDR x1, [x1, #0]`.
pub const LDR_X1_X1: u32 = 0xf940_0021;
/// `ADRP x16, 0`.
pub const OBJC_ADRP_X16: u32 = 0x9000_0010;
/// `LDR x16, [x16, #0]`.
pub const OBJC_LDR_X16_X16: u32 = 0xf940_0210;
/// `BR x16`.
pub const OBJC_BR_X16: u32 = 0xd61f_0200;
/// `BRK #1`.
pub const BRK_1: u32 = 0xd420_0020;

/// Why a synthetic section could not be written.
#[derive(Debug, Clone, Copy, PartialEq, Eq)]
pub enum SyntheticError {
    /// A stub's address lies before its section.
    BeforeSection,
    /// An entry runs past the end of its section's allocation.
    OutsideSection,
    /// An instruction cannot reach its target.
    Instruction(RelocationError),
    /// Selector stubs were allocated without any planned.
    UnplannedObjcStubs,
    /// The selector-stub allocation is smaller than the plan.
    ObjcStubsTooSmall,
    /// A stub or selector-reference address overflows.
    AddressOverflow,
    /// Two selector stubs name one reference with different selectors.
    ConflictingSelectorReference,
    /// A branch island's target symbol has no resolution.
    MissingThunkTarget,
}

// ---------------------------------------------------------------------------------------------
// dyld stubs
// ---------------------------------------------------------------------------------------------

/// Why the stub of an import cannot be written into a `__stubs` section at `section_address`
/// of `len` bytes, if it cannot. Imports without a stub are skipped.
pub open spec fn plt_stub_error(import: ImportedSymbol, section_address: u64, len: int) -> Option<
    SyntheticError,
> {
    match import.binding {
        ImportedSymbolBinding::Got { got_address, plt_address: Some(stub) } => if stub
            < section_address {
            Some(SyntheticError::BeforeSection)
        } else if stub - section_address + PLT_ENTRY_SIZE > len {
            Some(SyntheticError::OutsideSection)
        } else if wrap_sub(got_address, page_of(stub)) >= 0x1_0000_0000 {
            Some(SyntheticError::Instruction(RelocationError::TargetTooFar))
        } else {
            None
        },
        _ => None,
    }
}

/// The first error among the stubs of the first `n` imports.
pub open spec fn first_plt_error(imports: Seq<ImportedSymbol>, section_address: u64, len: int, n: int) -> Option<
    SyntheticError,
>
    decreases n,
{
    if n <= 0 {
        None
    } else {
        match first_plt_error(imports, section_address, len, n - 1) {
            Some(e) => Some(e),
            None => plt_stub_error(imports[n - 1], section_address, len),
        }
    }
}

/// `data` after writing the stubs of the first `n` imports.
pub open spec fn plt_writes(data: Seq<u8>, imports: Seq<ImportedSymbol>, section_address: u64, n: int) -> Seq<u8>
    decreases n,
{
    if n <= 0 {
        data
    } else {
        let prev = plt_writes(data, imports, section_address, n - 1);
        match imports[n - 1].binding {
            ImportedSymbolBinding::Got { got_address, plt_address: Some(stub) } => splice(
                prev,
                stub - section_address,
                stub_bytes(wrap_sub(got_address, page_of(stub))),
            ),
            _ => prev,
        }
    }
}

/// Writes the dyld stub of every import that calls through one into `plt`, the `__stubs`
/// section at `section_address`.
pub fn write_plt_entries(imports: &[ImportedSymbol], section_address: u64, plt: &mut [u8]) -> (r:
    Result<(), SyntheticError>)
    ensures
        match first_plt_error(imports@, section_address, old(plt)@.len() as int, imports@.len() as int) {
            Some(e) => r == Err::<(), SyntheticError>(e) && final(plt)@ == old(plt)@,
            None => r is Ok && final(plt)@ == plt_writes(
                old(plt)@,
                imports@,
                section_address,
                imports@.len() as int,
            ),
        },
{
    let len = plt.len();
    let mut i: usize = 0;
    while i < imports.len()
        invariant
            0 <= i <= imports@.len(),
            len == plt@.len(),
            first_plt_error(imports@, section_address, len as int, i as int) is None,
        decreases imports@.len() - i,
    {
        match imports[i].binding {
            ImportedSymbolBinding::Got { got_address, plt_address: Some(stub) } => {
                let e = if stub < section_address {
                    Some(SyntheticError::BeforeSection)
                } else if stub - section_address > (len as u64) || (len as u64) - (stub
                    - section_address) < PLT_ENTRY_SIZE as u64 {
                    Some(SyntheticError::OutsideSection)
                } else if got_address.wrapping_sub(stub & !PAGE_MASK_4KB) >= 0x1_0000_0000 {
                    Some(SyntheticError::Instruction(RelocationError::TargetTooFar))
                } else {
                    None
                };
                match e {
                    Some(e) => {
                        proof {
                            lemma_first_plt_error_stays(
                                imports@,
                                section_address,
                                len as int,
                                i + 1,
                                imports@.len() as int,
                            );
                        }
                        return Err(e);
                    },
                    None => {},
                }
            },
            _ => {},
        }
        i = i + 1;
    }
    let ghost original = plt@;
    let mut i: usize = 0;
    while i < imports.len()
        invariant
            0 <= i <= imports@.len(),
            len == plt@.len(),
            len == original.len(),
            first_plt_error(imports@, section_address, len as int, imports@.len() as int) is None,
            plt@ == plt_writes(original, imports@, section_address, i as int),
        decreases imports@.len() - i,
    {
        proof {
            lemma_first_plt_error_prefix(
                imports@,
                section_address,
                len as int,
                i + 1,
                imports@.len() as int,
            );
        }
        match imports[i].binding {
            ImportedSymbolBinding::Got { got_address, plt_address: Some(stub) } => {
                let offset = (stub - section_address) as usize;
                let mut entry: Vec<u8> = vec![0u8; PLT_ENTRY_SIZE];
                match write_plt_entry(entry.as_mut_slice(), got_address, stub) {
                    Err(e) => {
                        return Err(SyntheticError::Instruction(e));
                    },
                    Ok(()) => {},
                }
                write_bytes_at(plt, offset, entry.as_slice());
            },
            _ => {},
        }
        i = i + 1;
    }
    Ok(())
}

/// Once the first `k` imports hold an error, the first `n` hold the same one.
proof fn lemma_first_plt_error_stays(imports: Seq<ImportedSymbol>, section_address: u64, len: int, k: int, n: int)
    requires
        0 <= k <= n,
        first_plt_error(imports, section_address, len, k) is Some,
    ensures
        first_plt_error(imports, section_address, len, n) == first_plt_error(
            imports,
            section_address,
            len,
            k,
        ),
    decreases n - k,
{
    if n > k {
        lemma_first_plt_error_stays(imports, section_address, len, k, n - 1);
    }
}

/// Without an error among the first `n` imports, none of the first `k` has one.
proof fn lemma_first_plt_error_prefix(imports: Seq<ImportedSymbol>, section_address: u64, len: int, k: int, n: int)
    requires
        0 <= k <= n,
        first_plt_error(imports, section_address, len, n) is None,
    ensures
        first_plt_error(imports, section_address, len, k) is None,
    decreases n - k,
{
    if n > k {
        lemma_first_plt_error_prefix(imports, section_address, len, k, n - 1);
    }
}

// ---------------------------------------------------------------------------------------------
// Objective-C selector stubs
// ---------------------------------------------------------------------------------------------

/// One selector stub: the final address of its selector string and of `_objc_msgSend`'s GOT
/// slot.
#[derive(Debug, Clone, Copy, PartialEq, Eq)]
pub struct ObjcMessageStubPlan {
    pub selector_address: u64,
    pub got_address: u64,
}

/// Why an `ADRP`/`LDR` pair of a stub at `stub_address` cannot reach `target`, if it cannot.
pub open spec fn objc_reach_error(stub_address: u64, target: u64) -> Option<RelocationError> {
    if target < page_of(stub_address) {
        Some(RelocationError::TargetBeforePage)
    } else if target - page_of(stub_address) >= 0x1_0000_0000 {
        Some(RelocationError::TargetTooFar)
    } else {
        None
    }
}

/// An `ADRP`/`LDR` pair, from the stub at `stub_address` to `target`.
pub open spec fn objc_pair_bytes(adrp: u32, ldr: u32, stub_address: u64, target: u64) -> Seq<u8> {
    let offset = (target - page_of(stub_address)) as u64;
    patched_instruction(u32_le_bytes(adrp), AArch64Instruction::Adr, offset / SIZE_4KB)
        + patched_instruction(u32_le_bytes(ldr), AArch64Instruction::MachOLow12, offset & PAGE_MASK_4KB)
}

/// ld64's selector stub: load the selector reference into `x1`, load `_objc_msgSend` from its
/// GOT slot into `x16`, branch, and three `BRK #1` of padding.
pub open spec fn objc_stub_bytes(stub_address: u64, selector_reference: u64, got_address: u64) -> Seq<u8> {
    objc_pair_bytes(ADRP_X1, LDR_X1_X1, stub_address, selector_reference) + objc_pair_bytes(
        OBJC_ADRP_X16,
        OBJC_LDR_X16_X16,
        stub_address,
        got_address,
    ) + u32_le_bytes(OBJC_BR_X16) + u32_le_bytes(BRK_1) + u32_le_bytes(BRK_1) + u32_le_bytes(BRK_1)
}

/// The address of stub `index` and of its selector reference.
pub open spec fn objc_stub_addresses(stubs_address: u64, selrefs_address: u64, index: int) -> (int, int) {
    (stubs_address + index * OBJC_MESSAGE_STUB_SIZE, selrefs_address + index * OBJC_SELECTOR_REFERENCE_SIZE)
}

/// Why stub `index` of the plan cannot be written, if it cannot.
pub open spec fn objc_stub_error(plan: ObjcMessageStubPlan, stubs_address: u64, selrefs_address: u64, index: int) -> Option<
    SyntheticError,
> {
    let (stub, selref) = objc_stub_addresses(stubs_address, selrefs_address, index);
    if stub > u64::MAX || selref > u64::MAX {
        Some(SyntheticError::AddressOverflow)
    } else {
        match objc_reach_error(stub as u64, selref as u64) {
            Some(e) => Some(SyntheticError::Instruction(e)),
            None => match objc_reach_error(stub as u64, plan.got_address) {
                Some(e) => Some(SyntheticError::Instruction(e)),
                None => None,
            },
        }
    }
}

/// The first error among the first `n` stubs of the plan.
pub open spec fn first_objc_stub_error(plans: Seq<ObjcMessageStubPlan>, stubs_address: u64, selrefs_address: u64, n: int) -> Option<
    SyntheticError,
>
    decreases n,
{
    if n <= 0 {
        None
    } else {
        match first_objc_stub_error(plans, stubs_address, selrefs_address, n - 1) {
            Some(e) => Some(e),
            None => objc_stub_error(plans[n - 1], stubs_address, selrefs_address, n - 1),
        }
    }
}

/// `data` after writing the first `n` stubs of the plan.
pub open spec fn objc_stub_writes(data: Seq<u8>, plans: Seq<ObjcMessageStubPlan>, stubs_address: u64, selrefs_address: u64, n: int) -> Seq<u8>
    decreases n,
{
    if n <= 0 {
        data
    } else {
        let (stub, selref) = objc_stub_addresses(stubs_address, selrefs_address, n - 1);
        splice(
            objc_stub_writes(data, plans, stubs_address, selrefs_address, n - 1),
            (n - 1) * OBJC_MESSAGE_STUB_SIZE,
            objc_stub_bytes(stub as u64, selref as u64, plans[n - 1].got_address),
        )
    }
}

/// The selector references of the first `n` stubs: each reference's address to its selector.
pub open spec fn objc_selector_rebases(plans: Seq<ObjcMessageStubPlan>, selrefs_address: u64, n: int) -> Map<u64, u64>
    decreases n,
{
    if n <= 0 {
        Map::empty()
    } else {
        objc_selector_rebases(plans, selrefs_address, n - 1).insert(
            (selrefs_address + (n - 1) * OBJC_SELECTOR_REFERENCE_SIZE) as u64,
            plans[n - 1].selector_address,
        )
    }
}

/// Writes stub `index`'s `ADRP`/`LDR` pair to `target` into a fresh buffer.
fn objc_pair(adrp: u32, ldr: u32, stub_address: u64, target: u64) -> (r: Vec<u8>)
    requires
        objc_reach_error(stub_address, target) is None,
    ensures
        r@ == objc_pair_bytes(adrp, ldr, stub_address, target),
{
    let mut adrp_bytes: Vec<u8> = Vec::new();
    push_u32(&mut adrp_bytes, adrp);
    let mut ldr_bytes: Vec<u8> = Vec::new();
    push_u32(&mut ldr_bytes, ldr);
    assert(adrp_bytes@ =~= u32_le_bytes(adrp));
    assert(ldr_bytes@ =~= u32_le_bytes(ldr));
    let _ = write_objc_stub_address(
        stub_address,
        target,
        adrp_bytes.as_mut_slice(),
        ldr_bytes.as_mut_slice(),
    );
    let mut pair = adrp_bytes;
    let mut i: usize = 0;
    let ghost first = pair@;
    while i < 4
        invariant
            0 <= i <= 4,
            ldr_bytes@.len() == 4,
            pair@ == first + ldr_bytes@.take(i as int),
        decreases 4 - i,
    {
        pair.push(ldr_bytes[i]);
        assert(pair@ =~= first + ldr_bytes@.take(i + 1));
        i = i + 1;
    }
    assert(ldr_bytes@.take(4) =~= ldr_bytes@);
    pair
}

/// Writes the code half of ld64's selector-dispatch ABI: stub `i` of the plan goes to offset
/// `32 * i` of `stubs`, the `__objc_stubs` section at `stubs_address`, and loads the selector
/// reference at `selrefs_address + 8 * i`. Yields those references and their selectors, which
/// dyld must rebase. Without a plan the section must be empty.
pub fn write_objc_message_stubs(
    plans: &[ObjcMessageStubPlan],
    stubs_address: u64,
    selrefs_address: u64,
    stubs: &mut [u8],
) -> (r: Result<BTreeMap<u64, u64>, SyntheticError>)
    ensures
        plans@.len() == 0 && old(stubs)@.len() != 0 ==> r == Err::<
            BTreeMap<u64, u64>,
            SyntheticError,
        >(SyntheticError::UnplannedObjcStubs) && final(stubs)@ == old(stubs)@,
        plans@.len() == 0 && old(stubs)@.len() == 0 ==> (r matches Ok(m) && m@ == Map::<
            u64,
            u64,
        >::empty()) && final(stubs)@ == old(stubs)@,
        plans@.len() > 0 && plans@.len() * OBJC_MESSAGE_STUB_SIZE > old(stubs)@.len() ==> r
            == Err::<BTreeMap<u64, u64>, SyntheticError>(SyntheticError::ObjcStubsTooSmall)
            && final(stubs)@ == old(stubs)@,
        plans@.len() > 0 && plans@.len() * OBJC_MESSAGE_STUB_SIZE <= old(stubs)@.len() ==> match first_objc_stub_error(
            plans@,
            stubs_address,
            selrefs_address,
            plans@.len() as int,
        ) {
            Some(e) => r == Err::<BTreeMap<u64, u64>, SyntheticError>(e) && final(stubs)@ == old(
                stubs,
            )@,
            None => (r matches Ok(m) && m@ == objc_selector_rebases(
                plans@,
                selrefs_address,
                plans@.len() as int,
            )) && final(stubs)@ == objc_stub_writes(
                old(stubs)@,
                plans@,
                stubs_address,
                selrefs_address,
                plans@.len() as int,
            ),
        },
{
    let n = plans.len();
    let _stubs_len = stubs.len();
    if n == 0 {
        if stubs.len() != 0 {
            return Err(SyntheticError::UnplannedObjcStubs);
        }
        return Ok(BTreeMap::new());
    }
    if n > stubs.len() / OBJC_MESSAGE_STUB_SIZE {
        return Err(SyntheticError::ObjcStubsTooSmall);
    }
    let mut i: usize = 0;
    while i < n
        invariant
            n == plans@.len(),
            n * OBJC_MESSAGE_STUB_SIZE <= stubs@.len(),
            stubs@.len() <= usize::MAX,
            stubs@ == old(stubs)@,
            0 <= i <= n,
            first_objc_stub_error(plans@, stubs_address, selrefs_address, i as int) is None,
        decreases n - i,
    {
        assert(i * 32 + 32 <= n * 32) by (nonlinear_arith)
            requires
                i < n,
        ;

        let offset = i * OBJC_MESSAGE_STUB_SIZE;
        let reference_offset = (i as u64) * (OBJC_SELECTOR_REFERENCE_SIZE as u64);
        let e = if stubs_address > u64::MAX - (offset as u64) || selrefs_address > u64::MAX
            - reference_offset {
            Some(SyntheticError::AddressOverflow)
        } else {
            let stub_address = stubs_address + offset as u64;
            let page = stub_address & !PAGE_MASK_4KB;
            let selref = selrefs_address + reference_offset;
            let got = plans[i].got_address;
            if selref < page {
                Some(SyntheticError::Instruction(RelocationError::TargetBeforePage))
            } else if selref - page >= 0x1_0000_0000 {
                Some(SyntheticError::Instruction(RelocationError::TargetTooFar))
            } else if got < page {
                Some(SyntheticError::Instruction(RelocationError::TargetBeforePage))
            } else if got - page >= 0x1_0000_0000 {
                Some(SyntheticError::Instruction(RelocationError::TargetTooFar))
            } else {
                None
            }
        };
        match e {
            Some(e) => {
                proof {
                    lemma_first_objc_stub_error_stays(
                        plans@,
                        stubs_address,
                        selrefs_address,
                        i + 1,
                        n as int,
                    );
                }
                return Err(e);
            },
            None => {},
        }
        i = i + 1;
    }
    let ghost original = stubs@;
    let mut rebases: BTreeMap<u64, u64> = BTreeMap::new();
    let mut i: usize = 0;
    while i < n
        invariant
            n == plans@.len(),
            n * OBJC_MESSAGE_STUB_SIZE <= stubs@.len(),
            stubs@.len() <= usize::MAX,
            stubs@.len() == original.len(),
            original == old(stubs)@,
            0 <= i <= n,
            first_objc_stub_error(plans@, stubs_address, selrefs_address, n as int) is None,
            stubs@ == objc_stub_writes(original, plans@, stubs_address, selrefs_address, i as int),
            rebases@ == objc_selector_rebases(plans@, selrefs_address, i as int),
            forall|a: u64| #[trigger] rebases@.contains_key(a) ==> a < selrefs_address + i
                * OBJC_SELECTOR_REFERENCE_SIZE,
        decreases n - i,
    {
        proof {
            lemma_first_objc_stub_error_prefix(
                plans@,
                stubs_address,
                selrefs_address,
                i + 1,
                n as int,
            );
        }
        assert(i * 32 + 32 <= n * 32) by (nonlinear_arith)
            requires
                i < n,
        ;

        let offset = i * OBJC_MESSAGE_STUB_SIZE;
        let stub_address = stubs_address + offset as u64;
        let selref = selrefs_address + (i as u64) * (OBJC_SELECTOR_REFERENCE_SIZE as u64);
        let plan = plans[i];
        let mut stub = objc_pair(ADRP_X1, LDR_X1_X1, stub_address, selref);
        let got_pair = objc_pair(OBJC_ADRP_X16, OBJC_LDR_X16_X16, stub_address, plan.got_address);
        let ghost head = stub@;
        let mut j: usize = 0;
        while j < 8
            invariant
                0 <= j <= 8,
                got_pair@.len() == 8,
                stub@ == head + got_pair@.take(j as int),
            decreases 8 - j,
        {
            stub.push(got_pair[j]);
            assert(stub@ =~= head + got_pair@.take(j + 1));
            j = j + 1;
        }
        assert(got_pair@.take(8) =~= got_pair@);
        push_u32(&mut stub, OBJC_BR_X16);
        push_u32(&mut stub, BRK_1);
        push_u32(&mut stub, BRK_1);
        push_u32(&mut stub, BRK_1);
        assert(stub@ =~= objc_stub_bytes(stub_address, selref, plan.got_address));
        write_bytes_at(stubs, offset, stub.as_slice());
        match rebases.get(&selref) {
            Some(previous) => {
                if *previous != plan.selector_address {
                    return Err(SyntheticError::ConflictingSelectorReference);
                }
            },
            None => {},
        }
        rebases.insert(selref, plan.selector_address);
        i = i + 1;
    }
    Ok(rebases)
}

/// Once the first `k` stubs hold an error, the first `n` hold the same one.
proof fn lemma_first_objc_stub_error_stays(plans: Seq<ObjcMessageStubPlan>, stubs_address: u64, selrefs_address: u64, k: int, n: int)
    requires
        0 <= k <= n,
        first_objc_stub_error(plans, stubs_address, selrefs_address, k) is Some,
    ensures
        first_objc_stub_error(plans, stubs_address, selrefs_address, n) == first_objc_stub_error(
            plans,
            stubs_address,
            selrefs_address,
            k,
        ),
    decreases n - k,
{
    if n > k {
        lemma_first_objc_stub_error_stays(plans, stubs_address, selrefs_address, k, n - 1);
    }
}

/// Without an error among the first `n` stubs, none of the first `k` has one.
proof fn lemma_first_objc_stub_error_prefix(plans: Seq<ObjcMessageStubPlan>, stubs_address: u64, selrefs_address: u64, k: int, n: int)
    requires
        0 <= k <= n,
        first_objc_stub_error(plans, stubs_address, selrefs_address, n) is None,
    ensures
        first_objc_stub_error(plans, stubs_address, selrefs_address, k) is None,
    decreases n - k,
{
    if n > k {
        lemma_first_objc_stub_error_prefix(plans, stubs_address, selrefs_address, k, n - 1);
    }
}

// ---------------------------------------------------------------------------------------------
// Selector references
// ---------------------------------------------------------------------------------------------

/// Why the selector reference at `address` cannot be written into a `__objc_selrefs` section at
/// `section_address` of `len` bytes, if it cannot.
pub open spec fn selector_reference_error(address: u64, section_address: u64, len: int) -> Option<
    SyntheticError,
> {
    if address < section_address {
        Some(SyntheticError::BeforeSection)
    } else if address - section_address + OBJC_SELECTOR_REFERENCE_SIZE > len {
        Some(SyntheticError::OutsideSection)
    } else {
        None
    }
}

/// The first error among the first `n` references, taken in ascending address order.
pub open spec fn first_selector_reference_error(
    references: Seq<(&u64, &u64)>,
    section_address: u64,
    len: int,
    n: int,
) -> Option<SyntheticError>
    decreases n,
{
    if n <= 0 {
        None
    } else {
        match first_selector_reference_error(references, section_address, len, n - 1) {
            Some(e) => Some(e),
            None => selector_reference_error(*references[n - 1].0, section_address, len),
        }
    }
}

/// `data` after writing the first `n` references: each selector address, little-endian, at
/// its reference.
pub open spec fn selector_reference_writes(
    data: Seq<u8>,
    references: Seq<(&u64, &u64)>,
    section_address: u64,
    n: int,
) -> Seq<u8>
    decreases n,
{
    if n <= 0 {
        data
    } else {
        splice(
            selector_reference_writes(data, references, section_address, n - 1),
            *references[n - 1].0 - section_address,
            u64_le_bytes(*references[n - 1].1),
        )
    }
}

/// Writes the data half of the selector-dispatch ABI: each selector address at its reference in
/// `references`, the `__objc_selrefs` section at `section_address`, in ascending address order.
pub fn write_objc_selector_references(
    selector_rebases: &BTreeMap<u64, u64>,
    section_address: u64,
    references: &mut [u8],
) -> (r: Result<(), SyntheticError>)
    ensures
        match first_selector_reference_error(
            selector_rebases.iter().remaining(),
            section_address,
            old(references)@.len() as int,
            selector_rebases.iter().remaining().len() as int,
        ) {
            Some(e) => r == Err::<(), SyntheticError>(e) && final(references)@ == old(references)@,
            None => r is Ok && final(references)@ == selector_reference_writes(
                old(references)@,
                selector_rebases.iter().remaining(),
                section_address,
                selector_rebases.iter().remaining().len() as int,
            ),
        },
{
    let len = references.len();
    let ghost pairs = selector_rebases.iter().remaining();
    for (address, _target) in it: selector_rebases.iter()
        invariant
            len == references@.len(),
            references@ == old(references)@,
            pairs == selector_rebases.iter().remaining(),
            first_selector_reference_error(pairs, section_address, len as int, it.index() as int) is None,
    {
        let e = if *address < section_address {
            Some(SyntheticError::BeforeSection)
        } else if *address - section_address > len as u64 || (len as u64) - (*address
            - section_address) < OBJC_SELECTOR_REFERENCE_SIZE as u64 {
            Some(SyntheticError::OutsideSection)
        } else {
            None
        };
        match e {
            Some(e) => {
                proof {
                    lemma_first_selector_reference_error_stays(
                        pairs,
                        section_address,
                        len as int,
                        it.index() + 1,
                        pairs.len() as int,
                    );
                }
                return Err(e);
            },
            None => {},
        }
    }
    let ghost original = references@;
    for (address, target) in it: selector_rebases.iter()
        invariant
            len == references@.len(),
            original == old(references)@,
            pairs == selector_rebases.iter().remaining(),
            first_selector_reference_error(pairs, section_address, len as int, pairs.len() as int) is None,
            references@ == selector_reference_writes(original, pairs, section_address, it.index() as int),
    {
        proof {
            lemma_first_selector_reference_error_prefix(
                pairs,
                section_address,
                len as int,
                it.index() + 1,
                pairs.len() as int,
            );
        }
        write_u64_at(references, (*address - section_address) as usize, *target);
    }
    Ok(())
}

/// Once the first `k` references hold an error, the first `n` hold the same one.
proof fn lemma_first_selector_reference_error_stays(
    references: Seq<(&u64, &u64)>,
    section_address: u64,
    len: int,
    k: int,
    n: int,
)
    requires
        0 <= k <= n,
        first_selector_reference_error(references, section_address, len, k) is Some,
    ensures
        first_selector_reference_error(references, section_address, len, n)
            == first_selector_reference_error(references, section_address, len, k),
    decreases n - k,
{
    if n > k {
        lemma_first_selector_reference_error_stays(references, section_address, len, k, n - 1);
    }
}

/// Without an error among the first `n` references, none of the first `k` has one.
proof fn lemma_first_selector_reference_error_prefix(
    references: Seq<(&u64, &u64)>,
    section_address: u64,
    len: int,
    k: int,
    n: int,
)
    requires
        0 <= k <= n,
        first_selector_reference_error(references, section_address, len, n) is None,
    ensures
        first_selector_reference_error(references, section_address, len, k) is None,
    decreases n - k,
{
    if n > k {
        lemma_first_selector_reference_error_prefix(references, section_address, len, k, n - 1);
    }
}

// ---------------------------------------------------------------------------------------------
// Branch islands
// ---------------------------------------------------------------------------------------------

/// Why island `k`, the `k`-th in ascending symbol order, cannot be written into an island
/// buffer of `len` bytes, if it cannot: its target must be resolved and it must fit.
pub open spec fn thunk_error(islands: Seq<(&u32, &u64)>, targets: Map<u32, u64>, len: int, k: int) -> Option<
    SyntheticError,
> {
    if !targets.contains_key(*islands[k].0) {
        Some(SyntheticError::MissingThunkTarget)
    } else if (k + 1) * THUNK_SIZE > len {
        Some(SyntheticError::OutsideSection)
    } else {
        None
    }
}

/// The first error among the first `n` islands.
pub open spec fn first_thunk_error(islands: Seq<(&u32, &u64)>, targets: Map<u32, u64>, len: int, n: int) -> Option<
    SyntheticError,
>
    decreases n,
{
    if n <= 0 {
        None
    } else {
        match first_thunk_error(islands, targets, len, n - 1) {
            Some(e) => Some(e),
            None => thunk_error(islands, targets, len, n - 1),
        }
    }
}

/// `data` after writing the first `n` islands back to back from its start.
pub open spec fn thunk_writes(data: Seq<u8>, islands: Seq<(&u32, &u64)>, targets: Map<u32, u64>, n: int) -> Seq<u8>
    decreases n,
{
    if n <= 0 {
        data
    } else {
        splice(
            thunk_writes(data, islands, targets, n - 1),
            (n - 1) * THUNK_SIZE,
            thunk_bytes(*islands[n - 1].1, targets[*islands[n - 1].0]),
        )
    }
}

/// Writes the branch islands of an object: `thunk_addresses` maps each target symbol to its
/// island's address, `targets` each symbol to its final address. The islands are written back
/// to back from the start of `buffer`, in ascending symbol order.
pub fn write_thunks(
    thunk_addresses: &BTreeMap<u32, u64>,
    targets: &BTreeMap<u32, u64>,
    buffer: &mut [u8],
) -> (r: Result<(), SyntheticError>)
    ensures
        match first_thunk_error(
            thunk_addresses.iter().remaining(),
            targets@,
            old(buffer)@.len() as int,
            thunk_addresses.iter().remaining().len() as int,
        ) {
            Some(e) => r == Err::<(), SyntheticError>(e) && final(buffer)@ == old(buffer)@,
            None => r is Ok && final(buffer)@ == thunk_writes(
                old(buffer)@,
                thunk_addresses.iter().remaining(),
                targets@,
                thunk_addresses.iter().remaining().len() as int,
            ),
        },
{
    let len = buffer.len();
    let ghost islands = thunk_addresses.iter().remaining();
    let mut consumed: usize = 0;
    for (symbol, _address) in it: thunk_addresses.iter()
        invariant
            len == buffer@.len(),
            buffer@ == old(buffer)@,
            islands == thunk_addresses.iter().remaining(),
            consumed == it.index() * THUNK_SIZE,
            consumed <= len,
            first_thunk_error(islands, targets@, len as int, it.index() as int) is None,
    {
        let e = if !targets.contains_key(symbol) {
            Some(SyntheticError::MissingThunkTarget)
        } else if len - consumed < THUNK_SIZE {
            Some(SyntheticError::OutsideSection)
        } else {
            None
        };
        match e {
            Some(e) => {
                proof {
                    lemma_first_thunk_error_stays(
                        islands,
                        targets@,
                        len as int,
                        it.index() + 1,
                        islands.len() as int,
                    );
                }
                return Err(e);
            },
            None => {},
        }
        consumed = consumed + THUNK_SIZE;
    }
    let ghost original = buffer@;
    let mut offset: usize = 0;
    for (symbol, address) in it: thunk_addresses.iter()
        invariant
            len == buffer@.len(),
            original == old(buffer)@,
            islands == thunk_addresses.iter().remaining(),
            offset == it.index() * THUNK_SIZE,
            first_thunk_error(islands, targets@, len as int, islands.len() as int) is None,
            buffer@ == thunk_writes(original, islands, targets@, it.index() as int),
    {
        proof {
            lemma_first_thunk_error_prefix(
                islands,
                targets@,
                len as int,
                it.index() + 1,
                islands.len() as int,
            );
        }
        let target = match targets.get(symbol) {
            Some(target) => *target,
            None => {
                return Err(SyntheticError::MissingThunkTarget);
            },
        };
        let mut island: Vec<u8> = vec![0u8; THUNK_SIZE];
        write_thunk(*address, target, island.as_mut_slice());
        write_bytes_at(buffer, offset, island.as_slice());
        offset = offset + THUNK_SIZE;
    }
    Ok(())
}

/// Once the first `k` islands hold an error, the first `n` hold the same one.
proof fn lemma_first_thunk_error_stays(islands: Seq<(&u32, &u64)>, targets: Map<u32, u64>, len: int, k: int, n: int)
    requires
        0 <= k <= n,
        first_thunk_error(islands, targets, len, k) is Some,
    ensures
        first_thunk_error(islands, targets, len, n) == first_thunk_error(islands, targets, len, k),
    decreases n - k,
{
    if n > k {
        lemma_first_thunk_error_stays(islands, targets, len, k, n - 1);
    }
}

/// Without an error among the first `n` islands, none of the first `k` has one.
proof fn lemma_first_thunk_error_prefix(islands: Seq<(&u32, &u64)>, targets: Map<u32, u64>, len: int, k: int, n: int)
    requires
        0 <= k <= n,
        first_thunk_error(islands, targets, len, n) is None,
    ensures
        first_thunk_error(islands, targets, len, k) is None,
    decreases n - k,
{
    if n > k {
        lemma_first_thunk_error_prefix(islands, targets, len, k, n - 1);
    }
}

} // verus!
