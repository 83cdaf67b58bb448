//! The relocations of an object's `__eh_frame` section, grouped by the field they relocate, and
//! the forms that the function, personality, LSDA and pointer-difference fields must take.
use vstd::prelude::*;
use std::collections::BTreeMap;
use crate::relocations::{
    RelocationInfo, ARM64_RELOC_POINTER_TO_GOT, ARM64_RELOC_SUBTRACTOR, ARM64_RELOC_UNSIGNED,
};

verus! {

broadcast use vstd::std_specs::btree::group_btree_axioms;

/// Why an `__eh_frame` field's relocations were refused.
#[derive(Debug, Clone, Copy, PartialEq, Eq)]
pub enum EhFrameRelocationError {
    /// The field has no relocation.
    MissingRelocation,
    /// The field has no `ARM64_RELOC_UNSIGNED`.
    MissingUnsigned,
    /// The field has no `ARM64_RELOC_SUBTRACTOR`.
    MissingSubtractor,
    /// A function field names a section rather than a symbol.
    LocalFunction,
    /// The field has the wrong number of relocations.
    UnsupportedSequence,
    /// A pointer difference is not an external, absolute, 64-bit `SUBTRACTOR`/`UNSIGNED` pair.
    UnsupportedPair,
    /// A relocation does not have the type and form its field needs.
    UnsupportedRelocation,
    /// Two relocations of an augmentation field share an offset.
    DuplicateRelocation,
    /// A required target has no output address.
    UnresolvedTarget,
}

/// The relocations among the first `n` whose field starts at `offset`, in their order.
pub open spec fn relocations_at(relocations: Seq<RelocationInfo>, n: int, offset: usize) -> Seq<RelocationInfo>
    decreases n,
{
    if n <= 0 {
        Seq::empty()
    } else {
        let rest = relocations_at(relocations, n - 1, offset);
        if relocations[n - 1].r_address as usize == offset {
            rest.push(relocations[n - 1])
        } else {
            rest
        }
    }
}

/// Groups a section's relocations by the offset of the field they relocate, keeping their
/// order within each field.
pub fn eh_frame_relocations(relocations: &[RelocationInfo]) -> (r: BTreeMap<usize, Vec<RelocationInfo>>)
    ensures
        forall|offset: usize|
            #[trigger] r@.contains_key(offset) <==> relocations_at(
                relocations@,
                relocations@.len() as int,
                offset,
            ).len() > 0,
        forall|offset: usize|
            #[trigger] r@.contains_key(offset) ==> r@[offset]@ == relocations_at(
                relocations@,
                relocations@.len() as int,
                offset,
            ),
{
    let mut map: BTreeMap<usize, Vec<RelocationInfo>> = BTreeMap::new();
    let mut i: usize = 0;
    while i < relocations.len()
        invariant
            0 <= i <= relocations@.len(),
            forall|offset: usize|
                #[trigger] map@.contains_key(offset) <==> relocations_at(relocations@, i as int, offset).len()
                    > 0,
            forall|offset: usize|
                #[trigger] map@.contains_key(offset) ==> map@[offset]@ == relocations_at(
                    relocations@,
                    i as int,
                    offset,
                ),
        decreases relocations@.len() - i,
    {
        let info = relocations[i];
        let offset = info.r_address as usize;
        let mut fields = match map.remove(&offset) {
            Some(fields) => fields,
            None => Vec::new(),
        };
        fields.push(info);
        map.insert(offset, fields);
        proof {
            assert forall|o: usize| #[trigger] map@.contains_key(o) <==> relocations_at(
                relocations@,
                i + 1,
                o,
            ).len() > 0 by {
                if o != offset {
                    assert(relocations_at(relocations@, i + 1, o) == relocations_at(relocations@, i as int, o));
                }
            }
            assert forall|o: usize| #[trigger] map@.contains_key(o) implies map@[o]@ == relocations_at(
                relocations@,
                i + 1,
                o,
            ) by {
                if o != offset {
                    assert(relocations_at(relocations@, i + 1, o) == relocations_at(relocations@, i as int, o));
                }
            }
        }
        i = i + 1;
    }
    map
}

/// The first relocation among the first `n` of `fields` that has type `r_type`.
pub open spec fn first_of_type(fields: Seq<RelocationInfo>, n: int, r_type: u8) -> Option<RelocationInfo>
    decreases n,
{
    if n <= 0 {
        None
    } else {
        match first_of_type(fields, n - 1, r_type) {
            Some(r) => Some(r),
            None => if fields[n - 1].r_type == r_type {
                Some(fields[n - 1])
            } else {
                None
            },
        }
    }
}

/// The first relocation of `fields` that has type `r_type`.
fn find_of_type(fields: &Vec<RelocationInfo>, r_type: u8) -> (r: Option<RelocationInfo>)
    ensures
        r == first_of_type(fields@, fields@.len() as int, r_type),
{
    let mut i: usize = 0;
    while i < fields.len()
        invariant
            0 <= i <= fields@.len(),
            first_of_type(fields@, i as int, r_type) is None,
        decreases fields@.len() - i,
    {
        if fields[i].r_type == r_type {
            proof {
                lemma_first_of_type_stays(fields@, i + 1, fields@.len() as int, r_type);
            }
            return Some(fields[i]);
        }
        i = i + 1;
    }
    None
}

/// Once the first `k` fields hold one of the type, the first `n` hold the same one first.
proof fn lemma_first_of_type_stays(fields: Seq<RelocationInfo>, k: int, n: int, r_type: u8)
    requires
        0 <= k <= n,
        first_of_type(fields, k, r_type) is Some,
    ensures
        first_of_type(fields, n, r_type) == first_of_type(fields, k, r_type),
    decreases n - k,
{
    if n > k {
        lemma_first_of_type_stays(fields, k, n - 1, r_type);
    }
}

/// The relocations of the field at `offset`, as a sequence, if it has any.
pub open spec fn field_relocations(map: Map<usize, Vec<RelocationInfo>>, offset: usize) -> Option<Seq<RelocationInfo>> {
    if map.contains_key(offset) {
        Some(map[offset]@)
    } else {
        None
    }
}

/// The symbol an FDE's function field names: that of its first `ARM64_RELOC_UNSIGNED`, which
/// must be external.
pub open spec fn spec_eh_frame_function_symbol(fields: Option<Seq<RelocationInfo>>) -> Result<u32, EhFrameRelocationError> {
    match fields {
        None => Err(EhFrameRelocationError::MissingRelocation),
        Some(f) => match first_of_type(f, f.len() as int, ARM64_RELOC_UNSIGNED) {
            None => Err(EhFrameRelocationError::MissingUnsigned),
            Some(u) => if u.r_extern {
                Ok(u.r_symbolnum)
            } else {
                Err(EhFrameRelocationError::LocalFunction)
            },
        },
    }
}

/// The input symbol that identifies an FDE's function, from the relocations of its function
/// field at `offset`.
pub fn eh_frame_function_symbol(relocations: &BTreeMap<usize, Vec<RelocationInfo>>, offset: usize) -> (r:
    Result<u32, EhFrameRelocationError>)
    ensures
        r == spec_eh_frame_function_symbol(field_relocations(relocations@, offset)),
{
    let fields = match relocations.get(&offset) {
        None => {
            return Err(EhFrameRelocationError::MissingRelocation);
        },
        Some(fields) => fields,
    };
    match find_of_type(fields, ARM64_RELOC_UNSIGNED) {
        None => Err(EhFrameRelocationError::MissingUnsigned),
        Some(unsigned) => if unsigned.r_extern {
            Ok(unsigned.r_symbolnum)
        } else {
            Err(EhFrameRelocationError::LocalFunction)
        },
    }
}

/// Whether a relocation is external, absolute and 64 bits wide.
pub open spec fn is_external_absolute_64(r: RelocationInfo) -> bool {
    r.r_extern && !r.r_pcrel && r.r_length == 3
}

/// The symbol a pointer-difference field points at: the `ARM64_RELOC_UNSIGNED` of its pair.
pub open spec fn spec_eh_frame_difference_symbol(fields: Option<Seq<RelocationInfo>>) -> Result<u32, EhFrameRelocationError> {
    match fields {
        None => Err(EhFrameRelocationError::MissingRelocation),
        Some(f) => if f.len() != 2 {
            Err(EhFrameRelocationError::UnsupportedSequence)
        } else {
            match first_of_type(f, 2, ARM64_RELOC_SUBTRACTOR) {
                None => Err(EhFrameRelocationError::MissingSubtractor),
                Some(s) => match first_of_type(f, 2, ARM64_RELOC_UNSIGNED) {
                    None => Err(EhFrameRelocationError::MissingUnsigned),
                    Some(u) => if is_external_absolute_64(s) && is_external_absolute_64(u) {
                        Ok(u.r_symbolnum)
                    } else {
                        Err(EhFrameRelocationError::UnsupportedPair)
                    },
                },
            }
        },
    }
}

/// The target symbol of the pointer-difference field at `offset`: exactly one
/// `ARM64_RELOC_SUBTRACTOR` and one `ARM64_RELOC_UNSIGNED`, both external, absolute and 64 bits
/// wide. The subtrahend names the old field, which the writer replaces by the new one.
pub fn eh_frame_difference_symbol(relocations: &BTreeMap<usize, Vec<RelocationInfo>>, offset: usize) -> (r:
    Result<u32, EhFrameRelocationError>)
    ensures
        r == spec_eh_frame_difference_symbol(field_relocations(relocations@, offset)),
{
    let fields = match relocations.get(&offset) {
        None => {
            return Err(EhFrameRelocationError::MissingRelocation);
        },
        Some(fields) => fields,
    };
    if fields.len() != 2 {
        return Err(EhFrameRelocationError::UnsupportedSequence);
    }
    let subtractor = match find_of_type(fields, ARM64_RELOC_SUBTRACTOR) {
        None => {
            return Err(EhFrameRelocationError::MissingSubtractor);
        },
        Some(s) => s,
    };
    let unsigned = match find_of_type(fields, ARM64_RELOC_UNSIGNED) {
        None => {
            return Err(EhFrameRelocationError::MissingUnsigned);
        },
        Some(u) => u,
    };
    if subtractor.r_extern && unsigned.r_extern && !subtractor.r_pcrel && !unsigned.r_pcrel
        && subtractor.r_length == 3 && unsigned.r_length == 3 {
        Ok(unsigned.r_symbolnum)
    } else {
        Err(EhFrameRelocationError::UnsupportedPair)
    }
}

/// Whether a relocation is the form a personality pointer takes: an external, PC-relative,
/// 32-bit `ARM64_RELOC_POINTER_TO_GOT`.
pub open spec fn is_personality_form(r: RelocationInfo) -> bool {
    r.r_type == ARM64_RELOC_POINTER_TO_GOT && r.r_extern && r.r_pcrel && r.r_length == 2
}

/// The symbol whose GOT slot a personality field points at.
pub open spec fn spec_eh_frame_personality_symbol(fields: Option<Seq<RelocationInfo>>) -> Result<u32, EhFrameRelocationError> {
    match fields {
        None => Err(EhFrameRelocationError::MissingRelocation),
        Some(f) => if f.len() != 1 {
            Err(EhFrameRelocationError::UnsupportedSequence)
        } else if !is_personality_form(f[0]) {
            Err(EhFrameRelocationError::UnsupportedRelocation)
        } else {
            Ok(f[0].r_symbolnum)
        },
    }
}

/// The personality symbol of the CIE field at `offset`: a single external, PC-relative, 32-bit
/// `ARM64_RELOC_POINTER_TO_GOT`.
pub fn eh_frame_personality_symbol(relocations: &BTreeMap<usize, Vec<RelocationInfo>>, offset: usize) -> (r:
    Result<u32, EhFrameRelocationError>)
    ensures
        r == spec_eh_frame_personality_symbol(field_relocations(relocations@, offset)),
{
    let fields = match relocations.get(&offset) {
        None => {
            return Err(EhFrameRelocationError::MissingRelocation);
        },
        Some(fields) => fields,
    };
    if fields.len() != 1 {
        return Err(EhFrameRelocationError::UnsupportedSequence);
    }
    let relocation = fields[0];
    if !(relocation.r_type == ARM64_RELOC_POINTER_TO_GOT && relocation.r_extern && relocation.r_pcrel
        && relocation.r_length == 2) {
        return Err(EhFrameRelocationError::UnsupportedRelocation);
    }
    Ok(relocation.r_symbolnum)
}

/// Whether a relocation can describe an augmentation field: a GOT pointer or an absolute one.
pub open spec fn is_augmentation_relocation(r: RelocationInfo) -> bool {
    r.r_type == ARM64_RELOC_POINTER_TO_GOT || r.r_type == ARM64_RELOC_UNSIGNED
}

/// The augmentation relocations among the first `n`, by offset, or a duplicate among them.
pub open spec fn spec_augmentation_relocations(relocations: Seq<RelocationInfo>, n: int) -> Result<
    Map<usize, RelocationInfo>,
    EhFrameRelocationError,
>
    decreases n,
{
    if n <= 0 {
        Ok(Map::empty())
    } else {
        match spec_augmentation_relocations(relocations, n - 1) {
            Err(e) => Err(e),
            Ok(m) => {
                let r = relocations[n - 1];
                if !is_augmentation_relocation(r) {
                    Ok(m)
                } else if m.contains_key(r.r_address as usize) {
                    Err(EhFrameRelocationError::DuplicateRelocation)
                } else {
                    Ok(m.insert(r.r_address as usize, r))
                }
            },
        }
    }
}

/// The GOT-pointer and absolute relocations of an `__eh_frame` section by the offset of their
/// field, each offset at most once.
pub fn augmentation_relocations(relocations: &[RelocationInfo]) -> (r: Result<
    BTreeMap<usize, RelocationInfo>,
    EhFrameRelocationError,
>)
    ensures
        match spec_augmentation_relocations(relocations@, relocations@.len() as int) {
            Ok(m) => r matches Ok(map) && map@ == m,
            Err(e) => r == Err::<BTreeMap<usize, RelocationInfo>, EhFrameRelocationError>(e),
        },
{
    let mut map: BTreeMap<usize, RelocationInfo> = BTreeMap::new();
    let mut i: usize = 0;
    while i < relocations.len()
        invariant
            0 <= i <= relocations@.len(),
            spec_augmentation_relocations(relocations@, i as int) == Ok::<
                Map<usize, RelocationInfo>,
                EhFrameRelocationError,
            >(map@),
        decreases relocations@.len() - i,
    {
        let info = relocations[i];
        if info.r_type == ARM64_RELOC_POINTER_TO_GOT || info.r_type == ARM64_RELOC_UNSIGNED {
            let offset = info.r_address as usize;
            if map.contains_key(&offset) {
                proof {
                    lemma_augmentation_error_stays(relocations@, i + 1, relocations@.len() as int);
                }
                return Err(EhFrameRelocationError::DuplicateRelocation);
            }
            map.insert(offset, info);
        }
        i = i + 1;
    }
    Ok(map)
}

/// Once the first `k` relocations hold a duplicate, the first `n` are refused for it.
proof fn lemma_augmentation_error_stays(relocations: Seq<RelocationInfo>, k: int, n: int)
    requires
        0 <= k <= n,
        spec_augmentation_relocations(relocations, k) is Err,
    ensures
        spec_augmentation_relocations(relocations, n) == spec_augmentation_relocations(relocations, k),
    decreases n - k,
{
    if n > k {
        lemma_augmentation_error_stays(relocations, k, n - 1);
    }
}

/// Whether a relocation has the form of a field of `expected_type`: external, and a PC-relative
/// 32-bit GOT pointer or an absolute 64-bit pointer.
pub open spec fn is_target_form(r: RelocationInfo, expected_type: u8) -> bool {
    &&& r.r_type == expected_type
    &&& r.r_extern
    &&& if expected_type == ARM64_RELOC_POINTER_TO_GOT {
        r.r_pcrel && r.r_length == 2
    } else {
        !r.r_pcrel && r.r_length == 3
    }
}

/// The symbol an augmentation field names, where its relocation has the form of a field of
/// `expected_type`.
pub fn eh_frame_target_symbol(relocation: RelocationInfo, expected_type: u8) -> (r: Result<
    u32,
    EhFrameRelocationError,
>)
    ensures
        is_target_form(relocation, expected_type) ==> r == Ok::<u32, EhFrameRelocationError>(
            relocation.r_symbolnum,
        ),
        !is_target_form(relocation, expected_type) ==> r == Err::<u32, EhFrameRelocationError>(
            EhFrameRelocationError::UnsupportedRelocation,
        ),
{
    if relocation.r_type != expected_type || !relocation.r_extern {
        return Err(EhFrameRelocationError::UnsupportedRelocation);
    }
    let form_ok = if expected_type == ARM64_RELOC_POINTER_TO_GOT {
        relocation.r_pcrel && relocation.r_length == 2
    } else {
        !relocation.r_pcrel && relocation.r_length == 3
    };
    if !form_ok {
        return Err(EhFrameRelocationError::UnsupportedRelocation);
    }
    Ok(relocation.r_symbolnum)
}

/// The output address of a field's target: a required target must have one; an optional one
/// may be dead.
pub fn eh_frame_required_target(address: Option<u64>, required: bool) -> (r: Result<
    Option<u64>,
    EhFrameRelocationError,
>)
    ensures
        required && address is None ==> r == Err::<Option<u64>, EhFrameRelocationError>(
            EhFrameRelocationError::UnresolvedTarget,
        ),
        !(required && address is None) ==> r == Ok::<Option<u64>, EhFrameRelocationError>(address),
{
    if required && address.is_none() {
        return Err(EhFrameRelocationError::UnresolvedTarget);
    }
    Ok(address)
}

} // verus!
