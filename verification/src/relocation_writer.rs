//! Applying one relocation to the output: the value it takes from its resolved target, the
//! subtractor and thread-local forms, redirection through a branch island, and the bytes it
//! writes.
use vstd::prelude::*;
use std::collections::BTreeMap;
use crate::aarch64::{
    island_address, maybe_get_thunk_for_relocation, relocation_from_raw, relocation_value,
    rewrite_tlvp_load_as_add, spec_branch_island_value, spec_relocation_from_raw,
    spec_relocation_value, spec_write_relocation, tls_storage_offset, tlvp_add, wrap_add, wrap_sub,
    write_relocation_value, RelocationError, RelocationKind, RelocationKindInfo,
    LDR_X_UNSIGNED_IMMEDIATE, LDR_X_UNSIGNED_IMMEDIATE_MASK,
};
use crate::bytes::{le_u32, le_u64, read_u32_le, read_u64_le, splice, u32_le_bytes, write_bytes_at};
use crate::relocations::{
    RelocationInfo, ARM64_RELOC_BRANCH26, ARM64_RELOC_TLVP_LOAD_PAGE21,
    ARM64_RELOC_TLVP_LOAD_PAGEOFF12,
};
use crate::symbols::Resolution;
use crate::synthetic::OBJC_MESSAGE_STUB_SIZE;

verus! {

/// What the writer knows of a relocation's symbol: its resolution, whether it is reached
/// through a dynamic thread-variable descriptor, whether it is an Objective-C selector-send
/// symbol and the index of its synthesized stub, and the start of the TLS template where the
/// relocation is a descriptor's data pointer.
#[derive(Debug, Clone, Copy, PartialEq, Eq)]
pub struct RelocationTarget {
    pub resolution: Resolution,
    pub needs_got_tls_descriptor: bool,
    pub objc_message: bool,
    pub objc_stub_index: Option<usize>,
    pub tls_data_start: Option<u64>,
}

/// The address of the selector-send stub a branch goes to, if the branch targets a
/// selector-send symbol: such a branch must be a plain `BRANCH26`.
pub open spec fn spec_objc_stub_address(
    rel: RelocationInfo,
    addend: i64,
    has_subtractor: bool,
    target: RelocationTarget,
    objc_stubs_address: u64,
) -> Result<Option<u64>, RelocationError> {
    if !target.objc_message {
        Ok(None)
    } else if !(rel.r_type == ARM64_RELOC_BRANCH26 && addend == 0 && !has_subtractor) {
        Err(RelocationError::ObjcNotPlainBranch)
    } else {
        match target.objc_stub_index {
            None => Err(RelocationError::NoObjcStub),
            Some(index) => if objc_stubs_address + index * OBJC_MESSAGE_STUB_SIZE > u64::MAX {
                Err(RelocationError::AddressOverflow)
            } else {
                Ok(Some((objc_stubs_address + index * OBJC_MESSAGE_STUB_SIZE) as u64))
            },
        }
    }
}

/// The address a relocation counts from before its addend: the selector stub, the GOT slot of
/// a GOT relocation, a local definition's own address where a GOT slot has replaced its
/// relocation value, or else the relocation value.
pub open spec fn spec_symbol_value(info: RelocationKindInfo, target: RelocationTarget, objc_stub: Option<u64>) -> Result<
    u64,
    RelocationError,
> {
    let r = target.resolution;
    match objc_stub {
        Some(address) => Ok(address),
        None => if info.kind is Got || info.kind is GotRelative {
            match r.got_address {
                None => Err(RelocationError::NoGotSlot),
                Some(got) => Ok(got),
            }
        } else if r.dynamic_symbol_index is None && r.got_address is Some && r.plt_address is None {
            Ok(r.symbol_address)
        } else {
            Ok(r.raw_value)
        },
    }
}

/// The target plus addend: the thread-variable pointer slot of a TLVP load through a dynamic
/// descriptor, or else the symbol value.
pub open spec fn spec_symbol_plus_addend(rel: RelocationInfo, addend: i64, target: RelocationTarget, symbol_value: u64) -> Result<
    u64,
    RelocationError,
> {
    if (rel.r_type == ARM64_RELOC_TLVP_LOAD_PAGE21 || rel.r_type == ARM64_RELOC_TLVP_LOAD_PAGEOFF12)
        && target.needs_got_tls_descriptor {
        match target.resolution.tlvp_address {
            None => Err(RelocationError::NoTlvpSlot),
            Some(slot) => Ok(wrap_add(slot, addend as u64)),
        }
    } else {
        Ok(wrap_add(symbol_value, addend as u64))
    }
}

/// The value stored in place before a subtractor pair is applied: the word of the pair's
/// width.
pub open spec fn in_place_value(out: Seq<u8>, off: int, r_length: u8) -> u64 {
    if r_length == 2 {
        le_u32(out, off) as u64
    } else {
        le_u64(out, off) as u64
    }
}

/// The value of a relocation before any island: a subtractor pair computes minuend minus
/// subtrahend plus the in-place addend; otherwise the kind's value of the target; a
/// descriptor's data pointer becomes the target's offset in the TLS template.
pub open spec fn spec_direct_value(
    rel: RelocationInfo,
    addend: i64,
    subtrahend: Option<u64>,
    target: RelocationTarget,
    objc_stubs_address: u64,
    info: RelocationKindInfo,
    place: u64,
    in_place: u64,
) -> Result<u64, RelocationError> {
    match spec_objc_stub_address(rel, addend, subtrahend is Some, target, objc_stubs_address) {
        Err(e) => Err(e),
        Ok(stub) => match spec_symbol_value(info, target, stub) {
            Err(e) => Err(e),
            Ok(symbol_value) => match spec_symbol_plus_addend(rel, addend, target, symbol_value) {
                Err(e) => Err(e),
                Ok(symbol_plus_addend) => match subtrahend {
                    Some(s) => Ok(wrap_add(wrap_sub(target.resolution.raw_value, s), in_place)),
                    None => match target.tls_data_start {
                        Some(start) => if target.resolution.raw_value >= start {
                            Ok((target.resolution.raw_value - start) as u64)
                        } else {
                            Err(RelocationError::BeforeTlsStorage)
                        },
                        None => Ok(spec_relocation_value(info, symbol_plus_addend, place)),
                    },
                },
            },
        },
    }
}

/// The value after redirection: a branch out of reach goes to its target's island.
pub open spec fn spec_island_value(
    info: RelocationKindInfo,
    value: u64,
    in_primary_function_part: bool,
    object_thunk_block: usize,
    thunk_block_addresses: Seq<Map<u32, u64>>,
    canonical_symbol: u32,
    place: u64,
) -> Result<u64, RelocationError> {
    if !(info.thunkable && !info.range.spec_contains(value as i64)) {
        Ok(value)
    } else {
        match island_address(in_primary_function_part, object_thunk_block, thunk_block_addresses, canonical_symbol) {
            None => Err(RelocationError::NoBranchIsland),
            Some(address) => if address == 0 {
                Err(RelocationError::BranchIslandUnassigned)
            } else {
                spec_branch_island_value(info, address, place)
            },
        }
    }
}

/// The bytes at `off` that a relocation may rewrite: at most a doubleword.
pub open spec fn relocation_window(out: Seq<u8>, off: int) -> Seq<u8> {
    out.subrange(off, if off + 8 <= out.len() { off + 8 } else { out.len() as int })
}

/// A TLVP page-offset `LDR` turned into an `ADD`, or why it cannot be.
pub open spec fn spec_tlvp_rewrite(window: Seq<u8>) -> Result<Seq<u8>, RelocationError> {
    if window.len() < 4 {
        Err(RelocationError::OutsideSection)
    } else if (le_u32(window, 0) as u32) & LDR_X_UNSIGNED_IMMEDIATE_MASK != LDR_X_UNSIGNED_IMMEDIATE {
        Err(RelocationError::NotAnLdr)
    } else {
        Ok(splice(window, 0, u32_le_bytes(tlvp_add(le_u32(window, 0) as u32))))
    }
}

/// The outcome of applying a relocation, and the output after it: the checks of the storage's
/// place, the type, the value and its island come first and change nothing; then a TLVP
/// page-offset `LDR` becomes an `ADD` for a local descriptor, and the value is written into the
/// storage. A value that does not fit its field leaves that rewrite in place.
pub open spec fn spec_apply_relocation(
    rel: RelocationInfo,
    addend: i64,
    subtrahend: Option<u64>,
    target: RelocationTarget,
    objc_stubs_address: u64,
    in_primary_function_part: bool,
    object_thunk_block: usize,
    thunk_block_addresses: Seq<Map<u32, u64>>,
    canonical_symbol: u32,
    section_address: u64,
    output_offset: u64,
    out: Seq<u8>,
) -> (Result<(), RelocationError>, Seq<u8>) {
    let place = (section_address + output_offset) as u64;
    if output_offset > usize::MAX {
        (Err(RelocationError::OutsideSection), out)
    } else if rel.r_length >= usize::BITS {
        (Err(RelocationError::InvalidWidth), out)
    } else if output_offset + vstd::arithmetic::power2::pow2(rel.r_length as nat) > out.len() {
        (Err(RelocationError::OutsideSection), out)
    } else {
        match spec_relocation_from_raw(rel) {
            Err(e) => (Err(e), out),
            Ok(info) => match spec_direct_value(
                rel,
                addend,
                subtrahend,
                target,
                objc_stubs_address,
                info,
                place,
                in_place_value(out, output_offset as int, rel.r_length),
            ) {
                Err(e) => (Err(e), out),
                Ok(direct) => match spec_island_value(
                    info,
                    direct,
                    in_primary_function_part,
                    object_thunk_block,
                    thunk_block_addresses,
                    canonical_symbol,
                    place,
                ) {
                    Err(e) => (Err(e), out),
                    Ok(value) => {
                        let off = output_offset as int;
                        let window = relocation_window(out, off);
                        let rewritten = if rel.r_type == ARM64_RELOC_TLVP_LOAD_PAGEOFF12
                            && !target.needs_got_tls_descriptor {
                            spec_tlvp_rewrite(window)
                        } else {
                            Ok(window)
                        };
                        match rewritten {
                            Err(e) => (Err(e), out),
                            Ok(w) => match spec_write_relocation(info, value, w) {
                                Ok(bytes) => (Ok(()), splice(out, off, bytes)),
                                Err(e) => (Err(e), splice(out, off, w)),
                            },
                        }
                    },
                },
            },
        }
    }
}

/// Applies one relocation whose storage is at `output_offset` of `out`, the output of its
/// section at `section_address`. `subtrahend` is the relocation value of the subtrahend of a
/// subtractor pair; `thunk_block_addresses` maps, per thunk block, each symbol to its branch
/// island, and `canonical_symbol` names the target's definition there.
pub fn apply_relocation(
    rel: RelocationInfo,
    addend: i64,
    subtrahend: Option<u64>,
    target: &RelocationTarget,
    objc_stubs_address: u64,
    in_primary_function_part: bool,
    object_thunk_block: usize,
    thunk_block_addresses: &[BTreeMap<u32, u64>],
    canonical_symbol: u32,
    section_address: u64,
    output_offset: u64,
    out: &mut [u8],
) -> (r: Result<(), RelocationError>)
    requires
        section_address + output_offset <= u64::MAX,
    ensures
        (r, final(out)@) == spec_apply_relocation(
            rel,
            addend,
            subtrahend,
            *target,
            objc_stubs_address,
            in_primary_function_part,
            object_thunk_block,
            thunk_block_addresses@.map_values(|m: BTreeMap<u32, u64>| m@),
            canonical_symbol,
            section_address,
            output_offset,
            old(out)@,
        ),
{
    let place = section_address + output_offset;
    if output_offset > usize::MAX as u64 {
        return Err(RelocationError::OutsideSection);
    }
    let off = output_offset as usize;
    if rel.r_length as u32 >= usize::BITS {
        return Err(RelocationError::InvalidWidth);
    }
    proof {
        vstd::bits::lemma_usize_pow2_no_overflow(rel.r_length as nat);
        vstd::bits::lemma_usize_shl_is_mul(1, rel.r_length as usize);
    }
    let width = 1usize << (rel.r_length as usize);
    if off > out.len() || out.len() - off < width {
        return Err(RelocationError::OutsideSection);
    }
    let info = relocation_from_raw(rel)?;
    // Only widths of four and eight bytes pass the type check.
    assert(rel.r_length == 2 || rel.r_length == 3);
    let value = match direct_value(rel, addend, subtrahend, target, objc_stubs_address, &info, place, out, off) {
        Err(e) => {
            return Err(e);
        },
        Ok(v) => v,
    };
    let value = match maybe_get_thunk_for_relocation(
        &info,
        in_primary_function_part,
        object_thunk_block,
        thunk_block_addresses,
        canonical_symbol,
        place,
        value,
    ) {
        Err(e) => {
            return Err(e);
        },
        Ok(Some(island)) => island,
        Ok(None) => value,
    };
    let end = if out.len() - off >= 8 {
        off + 8
    } else {
        out.len()
    };
    let mut window: Vec<u8> = Vec::new();
    let mut i: usize = off;
    while i < end
        invariant
            off <= i <= end <= out@.len(),
            window@ == out@.subrange(off as int, i as int),
        decreases end - i,
    {
        window.push(out[i]);
        i = i + 1;
    }
    assert(window@ == relocation_window(out@, off as int));
    if rel.r_type == ARM64_RELOC_TLVP_LOAD_PAGEOFF12 && !target.needs_got_tls_descriptor {
        match rewrite_tlvp_load_as_add(window.as_mut_slice()) {
            Err(e) => {
                return Err(e);
            },
            Ok(()) => {},
        }
    }
    let result = write_relocation_value(&info, value, window.as_mut_slice());
    write_bytes_at(out, off, window.as_slice());
    match result {
        Ok(()) => Ok(()),
        Err(e) => Err(e),
    }
}

/// The value of a relocation before any island.
fn direct_value(
    rel: RelocationInfo,
    addend: i64,
    subtrahend: Option<u64>,
    target: &RelocationTarget,
    objc_stubs_address: u64,
    info: &RelocationKindInfo,
    place: u64,
    out: &[u8],
    off: usize,
) -> (r: Result<u64, RelocationError>)
    requires
        rel.r_length == 2 || rel.r_length == 3,
        off + vstd::arithmetic::power2::pow2(rel.r_length as nat) <= out@.len(),
    ensures
        r == spec_direct_value(
            rel,
            addend,
            subtrahend,
            *target,
            objc_stubs_address,
            *info,
            place,
            in_place_value(out@, off as int, rel.r_length),
        ),
{
    let stub = if !target.objc_message {
        None
    } else {
        if !(rel.r_type == ARM64_RELOC_BRANCH26 && addend == 0 && subtrahend.is_none()) {
            return Err(RelocationError::ObjcNotPlainBranch);
        }
        let index = match target.objc_stub_index {
            None => {
                return Err(RelocationError::NoObjcStub);
            },
            Some(index) => index,
        };
        if index as u64 > (u64::MAX - objc_stubs_address) / (OBJC_MESSAGE_STUB_SIZE as u64) {
            proof {
                assert(objc_stubs_address + index * 32 > u64::MAX) by (nonlinear_arith)
                    requires
                        index > (u64::MAX - objc_stubs_address) / 32,
                ;
            }
            return Err(RelocationError::AddressOverflow);
        }
        proof {
            assert(objc_stubs_address + index * 32 <= u64::MAX) by (nonlinear_arith)
                requires
                    index <= (u64::MAX - objc_stubs_address) / 32,
            ;
        }
        Some(objc_stubs_address + (index as u64) * (OBJC_MESSAGE_STUB_SIZE as u64))
    };
    let r = target.resolution;
    let symbol_value = match stub {
        Some(address) => address,
        None => match info.kind {
            RelocationKind::Got | RelocationKind::GotRelative => match r.got_address {
                None => {
                    return Err(RelocationError::NoGotSlot);
                },
                Some(got) => got,
            },
            _ => if r.dynamic_symbol_index.is_none() && r.got_address.is_some() && r.plt_address.is_none() {
                r.symbol_address
            } else {
                r.raw_value
            },
        },
    };
    let symbol_plus_addend = if (rel.r_type == ARM64_RELOC_TLVP_LOAD_PAGE21 || rel.r_type
        == ARM64_RELOC_TLVP_LOAD_PAGEOFF12) && target.needs_got_tls_descriptor {
        match r.tlvp_address {
            None => {
                return Err(RelocationError::NoTlvpSlot);
            },
            Some(slot) => slot.wrapping_add(addend as u64),
        }
    } else {
        symbol_value.wrapping_add(addend as u64)
    };
    match subtrahend {
        Some(s) => {
            proof {
                vstd::arithmetic::power2::lemma2_to64();
            }
            let in_place = if rel.r_length == 2 {
                read_u32_le(out, off) as u64
            } else {
                read_u64_le(out, off)
            };
            Ok(r.raw_value.wrapping_sub(s).wrapping_add(in_place))
        },
        None => match target.tls_data_start {
            Some(start) => match tls_storage_offset(r.raw_value, start) {
                Ok(offset) => Ok(offset),
                Err(e) => Err(e),
            },
            None => Ok(relocation_value(info, symbol_plus_addend, place)),
        },
    }
}

/// The input bytes a relocation's storage covers: `2^r_length` bytes at its offset.
pub open spec fn spec_relocation_storage(rel: RelocationInfo) -> Result<(u64, u64), RelocationError> {
    if rel.r_length >= 64 {
        Err(RelocationError::InvalidWidth)
    } else {
        Ok((rel.r_address as u64, (rel.r_address + vstd::arithmetic::power2::pow2(rel.r_length as nat)) as u64))
    }
}

/// The input range a relocation's storage covers, which decides whether it survived dead
/// stripping.
pub fn relocation_storage_range(rel: RelocationInfo) -> (r: Result<(u64, u64), RelocationError>)
    ensures
        r == spec_relocation_storage(rel),
{
    if rel.r_length >= 64 {
        return Err(RelocationError::InvalidWidth);
    }
    proof {
        vstd::arithmetic::power2::lemma2_to64();
        vstd::arithmetic::power2::lemma2_to64_rest();
        if rel.r_length < 63 {
            vstd::arithmetic::power2::lemma_pow2_strictly_increases(rel.r_length as nat, 63);
        }
        assert(vstd::arithmetic::power2::pow2(rel.r_length as nat) <= 0x8000_0000_0000_0000);
        vstd::bits::lemma_u64_shl_is_mul(1, rel.r_length as u64);
    }
    let width = 1u64 << (rel.r_length as u64);
    Ok((rel.r_address as u64, rel.r_address as u64 + width))
}

} // verus!
