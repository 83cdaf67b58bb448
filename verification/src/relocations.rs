//! Mach-O ARM64 relocation records: decoding, pairing of companion records, and the per-section
//! address-ordered cache that atoms select their relocations from.
use vstd::prelude::*;
use std::ops::Range;
use crate::sorting::{sort_by_key_stable, sorted_by_key, SortKey};

verus! {

/// `ARM64_RELOC_UNSIGNED`: an absolute pointer.
pub const ARM64_RELOC_UNSIGNED: u8 = 0;
/// `ARM64_RELOC_SUBTRACTOR`: the subtrahend of an address difference.
pub const ARM64_RELOC_SUBTRACTOR: u8 = 1;
/// `ARM64_RELOC_BRANCH26`: a `B`/`BL` target.
pub const ARM64_RELOC_BRANCH26: u8 = 2;
/// `ARM64_RELOC_PAGE21`: an `ADRP` page.
pub const ARM64_RELOC_PAGE21: u8 = 3;
/// `ARM64_RELOC_PAGEOFF12`: the low twelve bits of an address.
pub const ARM64_RELOC_PAGEOFF12: u8 = 4;
/// `ARM64_RELOC_GOT_LOAD_PAGE21`: the page of a GOT slot.
pub const ARM64_RELOC_GOT_LOAD_PAGE21: u8 = 5;
/// `ARM64_RELOC_GOT_LOAD_PAGEOFF12`: the low bits of a GOT slot.
pub const ARM64_RELOC_GOT_LOAD_PAGEOFF12: u8 = 6;
/// `ARM64_RELOC_POINTER_TO_GOT`: a pointer to a GOT slot.
pub const ARM64_RELOC_POINTER_TO_GOT: u8 = 7;
/// `ARM64_RELOC_TLVP_LOAD_PAGE21`: the page of a thread-variable descriptor.
pub const ARM64_RELOC_TLVP_LOAD_PAGE21: u8 = 8;
/// `ARM64_RELOC_TLVP_LOAD_PAGEOFF12`: the low bits of a thread-variable descriptor.
pub const ARM64_RELOC_TLVP_LOAD_PAGEOFF12: u8 = 9;
/// `ARM64_RELOC_ADDEND`: the addend of the relocation that follows it.
pub const ARM64_RELOC_ADDEND: u8 = 10;
/// `ARM64_RELOC_AUTHENTICATED_POINTER`: an arm64e signed pointer.
pub const ARM64_RELOC_AUTHENTICATED_POINTER: u8 = 11;

/// A relocation record as stored in the file: two little-endian words.
#[derive(Debug, Clone, Copy, PartialEq, Eq)]
pub struct RawRelocation {
    pub word0: u32,
    pub word1: u32,
}

/// The fields of a plain (non-scattered) relocation record.
#[derive(Debug, Clone, Copy, PartialEq, Eq)]
pub struct RelocationInfo {
    pub r_address: u32,
    pub r_symbolnum: u32,
    pub r_pcrel: bool,
    pub r_length: u8,
    pub r_extern: bool,
    pub r_type: u8,
}

/// The fields of a little-endian record: the offset is the first word; the second holds the
/// symbol number in its low 24 bits, then the PC-relative bit, the two-bit length, the extern
/// bit and the four-bit type.
pub open spec fn spec_relocation_info(raw: RawRelocation) -> RelocationInfo {
    RelocationInfo {
        r_address: raw.word0,
        r_symbolnum: raw.word1 & 0x00ff_ffff,
        r_pcrel: (raw.word1 >> 24u32) & 1 != 0,
        r_length: ((raw.word1 >> 25u32) & 3) as u8,
        r_extern: (raw.word1 >> 27u32) & 1 != 0,
        r_type: (raw.word1 >> 28u32) as u8,
    }
}

/// Decodes a little-endian record with `object::macho::Relocation::info`, which splits the
/// second word into the symbol number, PC-relative bit, length, extern bit and type as
/// `spec_relocation_info` states.
#[verifier::external_body]
pub(crate) fn relocation_info(raw: RawRelocation) -> (r: RelocationInfo)
    ensures
        r == spec_relocation_info(raw),
{
    let record = object::macho::Relocation {
        r_word0: object::U32::new(object::LittleEndian, raw.word0),
        r_word1: object::U32::new(object::LittleEndian, raw.word1),
    };
    let info = record.info(object::LittleEndian);
    RelocationInfo {
        r_address: info.r_address,
        r_symbolnum: info.r_symbolnum,
        r_pcrel: info.r_pcrel,
        r_length: info.r_length,
        r_extern: info.r_extern,
        r_type: info.r_type,
    }
}

/// Decodes a relocation record.
pub fn decode_relocation(raw: RawRelocation) -> (r: RelocationInfo)
    ensures
        r == spec_relocation_info(raw),
{
    relocation_info(raw)
}

/// A relocation with its Mach-O companion records folded in: an `ARM64_RELOC_ADDEND` becomes the
/// addend of the relocation that follows it, and an `ARM64_RELOC_SUBTRACTOR` becomes the
/// subtrahend of the `ARM64_RELOC_UNSIGNED` that names the minuend.
#[derive(Debug, Clone, Copy, PartialEq, Eq)]
pub struct NormalizedRelocation {
    pub info: RelocationInfo,
    pub addend: i64,
    pub subtractor: Option<RelocationInfo>,
}

impl SortKey for NormalizedRelocation {
    open spec fn spec_sort_key(&self) -> u64 {
        self.info.r_address as u64
    }

    fn sort_key(&self) -> (r: u64) {
        self.info.r_address as u64
    }
}

/// Why a companion record could not be paired.
#[derive(Debug, Clone, Copy, PartialEq, Eq)]
pub enum PairingError {
    /// An addend record is extern, PC-relative or not four bytes long.
    AddendForm,
    /// An addend record is the last record.
    AddendUnpaired,
    /// An addend record and its relocation name different offsets.
    AddendOffsetMismatch,
    /// An addend record is followed by something other than a branch, page or page offset.
    AddendTarget,
    /// A subtractor record is the last record.
    SubtractorUnpaired,
    /// A subtractor record and its unsigned record name different offsets.
    SubtractorOffsetMismatch,
    /// A subtractor record is not followed by an unsigned record.
    SubtractorTarget,
    /// A subtractor pair is not two external, absolute 64-bit records.
    SubtractorForm,
}

/// The signed 24-bit value in the low bits of `value`.
pub open spec fn sign_extend24(value: u32) -> int {
    let low = value % 0x100_0000;
    if low >= 0x80_0000 {
        low - 0x100_0000
    } else {
        low as int
    }
}

/// The decoded records.
pub open spec fn infos_of(raw: Seq<RawRelocation>) -> Seq<RelocationInfo> {
    raw.map_values(|r: RawRelocation| spec_relocation_info(r))
}

/// The next normalized relocation starting at record `pos`, and the position after the records
/// it consumed; `None` past the end.
pub open spec fn spec_next_paired(infos: Seq<RelocationInfo>, pos: int) -> Option<
    (Result<NormalizedRelocation, PairingError>, int),
> {
    if pos < 0 || pos >= infos.len() {
        None
    } else {
        let first = infos[pos];
        if first.r_type == ARM64_RELOC_ADDEND {
            if first.r_extern || first.r_pcrel || first.r_length != 2 {
                Some((Err(PairingError::AddendForm), pos + 1))
            } else if pos + 1 >= infos.len() {
                Some((Err(PairingError::AddendUnpaired), pos + 1))
            } else {
                let primary = infos[pos + 1];
                if first.r_address != primary.r_address {
                    Some((Err(PairingError::AddendOffsetMismatch), pos + 2))
                } else if primary.r_type != ARM64_RELOC_BRANCH26 && primary.r_type
                    != ARM64_RELOC_PAGE21 && primary.r_type != ARM64_RELOC_PAGEOFF12 {
                    Some((Err(PairingError::AddendTarget), pos + 2))
                } else {
                    Some(
                        (
                            Ok(
                                NormalizedRelocation {
                                    info: primary,
                                    addend: sign_extend24(first.r_symbolnum) as i64,
                                    subtractor: None,
                                },
                            ),
                            pos + 2,
                        ),
                    )
                }
            }
        } else if first.r_type == ARM64_RELOC_SUBTRACTOR {
            if pos + 1 >= infos.len() {
                Some((Err(PairingError::SubtractorUnpaired), pos + 1))
            } else {
                let unsigned = infos[pos + 1];
                if first.r_address != unsigned.r_address {
                    Some((Err(PairingError::SubtractorOffsetMismatch), pos + 2))
                } else if unsigned.r_type != ARM64_RELOC_UNSIGNED {
                    Some((Err(PairingError::SubtractorTarget), pos + 2))
                } else if !(first.r_extern && unsigned.r_extern && !first.r_pcrel
                    && !unsigned.r_pcrel && first.r_length == 3 && unsigned.r_length == 3) {
                    Some((Err(PairingError::SubtractorForm), pos + 2))
                } else {
                    Some(
                        (
                            Ok(
                                NormalizedRelocation {
                                    info: unsigned,
                                    addend: 0,
                                    subtractor: Some(first),
                                },
                            ),
                            pos + 2,
                        ),
                    )
                }
            }
        } else {
            Some((Ok(NormalizedRelocation { info: first, addend: 0, subtractor: None }), pos + 1))
        }
    }
}

/// The normalized relocations from record `pos` on, or the first pairing error.
pub open spec fn spec_paired_from(infos: Seq<RelocationInfo>, pos: int) -> Result<
    Seq<NormalizedRelocation>,
    PairingError,
>
    decreases infos.len() - pos,
{
    match spec_next_paired(infos, pos) {
        None => Ok(Seq::empty()),
        Some((Err(e), _)) => Err(e),
        Some((Ok(n), next)) => if next > pos {
            match spec_paired_from(infos, next) {
                Ok(rest) => Ok(seq![n] + rest),
                Err(e) => Err(e),
            }
        } else {
            Ok(Seq::empty())
        },
    }
}

/// An `ARM64_RELOC_ADDEND` record validly paired with the branch, page or page-offset record
/// at the same offset that follows it gives one relocation of that record whose addend is the
/// low 24 bits of the addend record's symbol number read as a signed number, whatever the
/// primary type; the pair is consumed whole.
pub proof fn lemma_addend_pairing(infos: Seq<RelocationInfo>, pos: int)
    requires
        0 <= pos,
        pos + 1 < infos.len(),
        infos[pos].r_type == ARM64_RELOC_ADDEND,
        !infos[pos].r_extern,
        !infos[pos].r_pcrel,
        infos[pos].r_length == 2,
        infos[pos].r_address == infos[pos + 1].r_address,
        infos[pos + 1].r_type == 2u8 || infos[pos + 1].r_type == 3u8 || infos[pos + 1].r_type == 4u8,
    ensures
        ({
            let low = infos[pos].r_symbolnum % 0x100_0000;
            let addend: int = if low < 0x80_0000 { low as int } else { low - 0x100_0000 };
            &&& spec_next_paired(infos, pos) matches Some((Ok(n), next))
            &&& next == pos + 2
            &&& n.info == infos[pos + 1]
            &&& n.addend == addend
            &&& n.subtractor is None
        }),
{
}

/// An `ARM64_RELOC_SUBTRACTOR` record followed by an external 64-bit `ARM64_RELOC_UNSIGNED`
/// record at the same offset gives one relocation of the unsigned record that subtracts the
/// subtractor's symbol, with no addend; the pair is consumed whole.
pub proof fn lemma_subtractor_pairing(infos: Seq<RelocationInfo>, pos: int)
    requires
        0 <= pos,
        pos + 1 < infos.len(),
        infos[pos].r_type == 1u8,
        infos[pos + 1].r_type == 0u8,
        infos[pos].r_address == infos[pos + 1].r_address,
        infos[pos].r_extern && infos[pos + 1].r_extern,
        !infos[pos].r_pcrel && !infos[pos + 1].r_pcrel,
        infos[pos].r_length == 3 && infos[pos + 1].r_length == 3,
    ensures
        ({
            &&& spec_next_paired(infos, pos) matches Some((Ok(n), next))
            &&& next == pos + 2
            &&& n.info == infos[pos + 1]
            &&& n.addend == 0
            &&& n.subtractor == Some(infos[pos])
        }),
{
}

/// The low 24 bits of `value`, sign-extended.
fn sign_extend_symbolnum(value: u32) -> (r: i64)
    ensures
        r == sign_extend24(value),
{
    let low = value & 0x00ff_ffff;
    assert(low == value % 0x100_0000) by (bit_vector)
        requires
            low == value & 0x00ff_ffff,
    ;
    if low >= 0x80_0000 {
        low as i64 - 0x100_0000
    } else {
        low as i64
    }
}

/// The next normalized relocation starting at record `pos`, and the position after the records
/// it consumed; `None` past the end.
pub fn next_paired_relocation(relocations: &[RawRelocation], pos: usize) -> (r: Option<
    (Result<NormalizedRelocation, PairingError>, usize),
>)
    ensures
        match r {
            None => spec_next_paired(infos_of(relocations@), pos as int) is None,
            Some((item, next)) => spec_next_paired(infos_of(relocations@), pos as int) == Some(
                (item, next as int),
            ),
        },
        pos < relocations@.len() && infos_of(relocations@)[pos as int].r_type == ARM64_RELOC_ADDEND
            ==> match r {
            Some((Ok(n), _)) => {
                let low = infos_of(relocations@)[pos as int].r_symbolnum % 0x100_0000;
                &&& n.addend == if low < 0x80_0000 { low as int } else { low - 0x100_0000 }
                &&& n.info == infos_of(relocations@)[pos + 1]
            },
            _ => true,
        },
{
    let ghost infos = infos_of(relocations@);
    if pos >= relocations.len() {
        return None;
    }
    let first = relocation_info(relocations[pos]);
    assert(first == infos[pos as int]);
    if first.r_type == ARM64_RELOC_ADDEND {
        if first.r_extern || first.r_pcrel || first.r_length != 2 {
            return Some((Err(PairingError::AddendForm), pos + 1));
        }
        if pos + 1 >= relocations.len() {
            return Some((Err(PairingError::AddendUnpaired), pos + 1));
        }
        let primary = relocation_info(relocations[pos + 1]);
        assert(primary == infos[pos + 1]);
        if first.r_address != primary.r_address {
            return Some((Err(PairingError::AddendOffsetMismatch), pos + 2));
        }
        if primary.r_type != ARM64_RELOC_BRANCH26 && primary.r_type != ARM64_RELOC_PAGE21
            && primary.r_type != ARM64_RELOC_PAGEOFF12 {
            return Some((Err(PairingError::AddendTarget), pos + 2));
        }
        let addend = sign_extend_symbolnum(first.r_symbolnum);
        proof {
            lemma_addend_pairing(infos, pos as int);
        }
        Some((Ok(NormalizedRelocation { info: primary, addend, subtractor: None }), pos + 2))
    } else if first.r_type == ARM64_RELOC_SUBTRACTOR {
        if pos + 1 >= relocations.len() {
            return Some((Err(PairingError::SubtractorUnpaired), pos + 1));
        }
        let unsigned = relocation_info(relocations[pos + 1]);
        assert(unsigned == infos[pos + 1]);
        if first.r_address != unsigned.r_address {
            return Some((Err(PairingError::SubtractorOffsetMismatch), pos + 2));
        }
        if unsigned.r_type != ARM64_RELOC_UNSIGNED {
            return Some((Err(PairingError::SubtractorTarget), pos + 2));
        }
        if !(first.r_extern && unsigned.r_extern && !first.r_pcrel && !unsigned.r_pcrel
            && first.r_length == 3 && unsigned.r_length == 3) {
            return Some((Err(PairingError::SubtractorForm), pos + 2));
        }
        Some((Ok(NormalizedRelocation { info: unsigned, addend: 0, subtractor: Some(first) }), pos + 2))
    } else {
        Some((Ok(NormalizedRelocation { info: first, addend: 0, subtractor: None }), pos + 1))
    }
}

/// Every relocation of a section with its companion records folded in, in record order, or the
/// first pairing error.
pub fn paired_relocations(relocations: &[RawRelocation]) -> (r: Result<
    Vec<NormalizedRelocation>,
    PairingError,
>)
    ensures
        match r {
            Ok(v) => spec_paired_from(infos_of(relocations@), 0) == Ok::<
                Seq<NormalizedRelocation>,
                PairingError,
            >(v@),
            Err(e) => spec_paired_from(infos_of(relocations@), 0) == Err::<
                Seq<NormalizedRelocation>,
                PairingError,
            >(e),
        },
{
    let ghost infos = infos_of(relocations@);
    let mut out: Vec<NormalizedRelocation> = Vec::new();
    let mut pos: usize = 0;
    while pos < relocations.len()
        invariant
            infos == infos_of(relocations@),
            0 <= pos <= relocations@.len(),
            spec_paired_from(infos, 0) == match spec_paired_from(infos, pos as int) {
                Ok(rest) => Ok(out@ + rest),
                Err(e) => Err::<Seq<NormalizedRelocation>, PairingError>(e),
            },
        decreases relocations@.len() - pos,
    {
        match next_paired_relocation(relocations, pos) {
            None => {
                assert(out@ + Seq::<NormalizedRelocation>::empty() =~= out@);
                return Ok(out);
            },
            Some((Err(e), _)) => {
                return Err(e);
            },
            Some((Ok(item), next)) => {
                proof {
                    match spec_paired_from(infos, next as int) {
                        Ok(rest) => {
                            assert(out@.push(item) + rest =~= out@ + (seq![item] + rest));
                        },
                        Err(_) => {},
                    }
                }
                out.push(item);
                pos = next;
            },
        }
    }
    assert(spec_paired_from(infos, pos as int) == Ok::<Seq<NormalizedRelocation>, PairingError>(
        Seq::empty(),
    ));
    assert(out@ + Seq::<NormalizedRelocation>::empty() =~= out@);
    Ok(out)
}

/// Normalization leaves no companion record standing alone: every result names neither an
/// addend nor a subtractor record, and a subtrahend belongs to an unsigned record at its offset.
pub proof fn lemma_paired_has_no_companions(infos: Seq<RelocationInfo>, pos: int)
    requires
        0 <= pos,
    ensures
        spec_paired_from(infos, pos) matches Ok(v) ==> forall|i: int|
            0 <= i < v.len() ==> {
                &&& (#[trigger] v[i]).info.r_type != ARM64_RELOC_ADDEND
                &&& v[i].info.r_type != ARM64_RELOC_SUBTRACTOR
                &&& v[i].subtractor matches Some(s) ==> s.r_type == ARM64_RELOC_SUBTRACTOR
                    && v[i].info.r_type == ARM64_RELOC_UNSIGNED && s.r_address
                    == v[i].info.r_address
            },
    decreases infos.len() - pos,
{
    match spec_next_paired(infos, pos) {
        Some((Ok(n), next)) => {
            if next > pos {
                lemma_paired_has_no_companions(infos, next);
                match spec_paired_from(infos, next) {
                    Ok(rest) => {
                        let v = seq![n] + rest;
                        assert forall|i: int| 0 <= i < v.len() implies {
                            &&& (#[trigger] v[i]).info.r_type != ARM64_RELOC_ADDEND
                            &&& v[i].info.r_type != ARM64_RELOC_SUBTRACTOR
                            &&& v[i].subtractor matches Some(s) ==> s.r_type
                                == ARM64_RELOC_SUBTRACTOR && v[i].info.r_type
                                == ARM64_RELOC_UNSIGNED && s.r_address == v[i].info.r_address
                        } by {
                            if i > 0 {
                                assert(v[i] == rest[i - 1]);
                            }
                        }
                    },
                    Err(_) => {},
                }
            }
        },
        _ => {},
    }
}

/// The number of leading items whose key is below `bound`.
pub fn partition_point_below<T: SortKey>(items: &[T], bound: u64) -> (r: usize)
    requires
        sorted_by_key(items@),
    ensures
        r <= items@.len(),
        forall|i: int| 0 <= i < r ==> (#[trigger] items@[i]).spec_sort_key() < bound,
        forall|i: int| r <= i < items@.len() ==> (#[trigger] items@[i]).spec_sort_key() >= bound,
{
    let mut lo: usize = 0;
    let mut hi: usize = items.len();
    while lo < hi
        invariant
            0 <= lo <= hi <= items@.len(),
            sorted_by_key(items@),
            forall|i: int| 0 <= i < lo ==> (#[trigger] items@[i]).spec_sort_key() < bound,
            forall|i: int| hi <= i < items@.len() ==> (#[trigger] items@[i]).spec_sort_key() >= bound,
        decreases hi - lo,
    {
        let mid = lo + (hi - lo) / 2;
        if items[mid].sort_key() < bound {
            proof {
                assert forall|i: int| 0 <= i < mid + 1 implies (#[trigger] items@[i]).spec_sort_key()
                    < bound by {
                    assert(items@[i].spec_sort_key() <= items@[mid as int].spec_sort_key());
                }
            }
            lo = mid + 1;
        } else {
            proof {
                assert forall|i: int| mid <= i < items@.len() implies (
                #[trigger] items@[i]).spec_sort_key() >= bound by {
                    assert(items@[mid as int].spec_sort_key() <= items@[i].spec_sort_key());
                }
            }
            hi = mid;
        }
    }
    lo
}

/// The normalized relocations of each section of one object, each section's list ordered by
/// offset, filled on first use.
pub struct MachORelocationCache {
    pub sections: Vec<Option<Vec<NormalizedRelocation>>>,
}

/// Whether `cached` is `items` ordered by key, items of equal key in their order in `items`:
/// `perm` gives the position in `items` of each position of `cached`.
pub open spec fn is_stable_order(cached: Seq<NormalizedRelocation>, items: Seq<NormalizedRelocation>, perm: Seq<int>) -> bool {
    &&& perm.len() == cached.len()
    &&& cached.len() == items.len()
    &&& forall|k: int| 0 <= k < cached.len() ==> 0 <= #[trigger] perm[k] < items.len() && cached[k] == items[perm[k]]
    &&& forall|a: int, b: int| 0 <= a < b < cached.len() ==> #[trigger] perm[a] != #[trigger] perm[b]
    &&& forall|a: int, b: int|
        0 <= a < b < cached.len() && cached[a].spec_sort_key() == cached[b].spec_sort_key()
            ==> #[trigger] perm[a] < #[trigger] perm[b]
}

/// Whether `cached` is the relocation list of a section with records `raw`: its normalized
/// relocations, ordered by offset, those at one offset in their normalized order.
pub open spec fn is_cached_list(cached: Seq<NormalizedRelocation>, raw: Seq<RawRelocation>) -> bool {
    &&& spec_paired_from(infos_of(raw), 0) is Ok
    &&& cached.to_multiset() == spec_paired_from(infos_of(raw), 0)->Ok_0.to_multiset()
    &&& sorted_by_key(cached)
    &&& exists|perm: Seq<int>| #[trigger] is_stable_order(cached, spec_paired_from(infos_of(raw), 0)->Ok_0, perm)
}

impl MachORelocationCache {
    /// An empty cache.
    pub fn new() -> (r: Self)
        ensures
            r.sections@.len() == 0,
    {
        MachORelocationCache { sections: Vec::new() }
    }

    /// Normalizes and orders the relocations of section `section` unless that was done before.
    pub fn cache(&mut self, section: usize, relocations: &[RawRelocation]) -> (r: Result<
        (),
        PairingError,
    >)
        requires
            section < usize::MAX,
        ensures
            final(self).sections@.len() == if section < old(self).sections@.len() {
                old(self).sections@.len() as int
            } else {
                section + 1
            },
            forall|i: int|
                0 <= i < final(self).sections@.len() && i != section ==> #[trigger] final(self).sections@[i] == if i < old(self).sections@.len() {
                    old(self).sections@[i]
                } else {
                    None
                },
            section < old(self).sections@.len() && old(self).sections@[section as int] is Some
                ==> r is Ok && final(self).sections@[section as int] == old(self).sections@[section as int],
            !(section < old(self).sections@.len() && old(self).sections@[section as int] is Some)
                ==> {
                &&& r is Ok <==> spec_paired_from(infos_of(relocations@), 0) is Ok
                &&& r is Ok ==> (final(self).sections@[section as int] matches Some(list)
                    && is_cached_list(list@, relocations@))
                &&& r is Err ==> final(self).sections@[section as int] is None
            },
    {
        while self.sections.len() <= section
            invariant
                section < usize::MAX,
                self.sections@.len() >= old(self).sections@.len(),
                forall|i: int|
                    0 <= i < self.sections@.len() ==> #[trigger] self.sections@[i] == if i < old(self).sections@.len() {
                        old(self).sections@[i]
                    } else {
                        None
                    },
                self.sections@.len() <= if section < old(self).sections@.len() {
                    old(self).sections@.len() as int
                } else {
                    section + 1
                },
            decreases section + 1 - self.sections@.len(),
        {
            self.sections.push(None);
        }
        if self.sections[section].is_none() {
            let paired = paired_relocations(relocations)?;
            let (sorted, Ghost(perm), Ghost(inv)) = sort_by_key_stable(&paired);
            proof {
                assert forall|a: int, b: int| 0 <= a < b < sorted@.len() implies #[trigger] perm[a] != #[trigger] perm[b] by {
                    assert(inv[perm[a]] == a);
                    assert(inv[perm[b]] == b);
                }
                assert(is_stable_order(sorted@, paired@, perm));
            }
            self.sections.set(section, Some(sorted));
        }
        Ok(())
    }

    /// The cached relocations of a section.
    pub fn for_section(&self, section: usize) -> (r: &[NormalizedRelocation])
        requires
            section < self.sections@.len(),
            self.sections@[section as int] is Some,
        ensures
            r@ == self.sections@[section as int]->Some_0@,
    {
        match &self.sections[section] {
            Some(list) => list.as_slice(),
            None => {
                proof {
                    assert(false);
                }
                &[]
            },
        }
    }

    /// The cached relocations of a section whose offsets lie in `[start, end)`.
    pub fn for_range(&self, section: usize, range: &Range<u64>) -> (r: &[NormalizedRelocation])
        requires
            section < self.sections@.len(),
            (self.sections@[section as int] matches Some(list) && sorted_by_key(list@)),
            range.start <= range.end,
        ensures
            ({
                let start = range.start;
                let end = range.end;
                let list = self.sections@[section as int]->Some_0@;
                exists|a: int, b: int|
                    0 <= a <= b <= list.len() && r@ == list.subrange(a, b) && (forall|i: int|
                        0 <= i < a ==> (#[trigger] list[i]).info.r_address < start) && (forall|
                        i: int,
                    |
                        b <= i < list.len() ==> (#[trigger] list[i]).info.r_address >= end) && (
                    forall|i: int|
                        a <= i < b ==> start <= (#[trigger] list[i]).info.r_address < end)
            }),
    {
        let list = self.for_section(section);
        let start = range.start;
        let end = range.end;
        let a = partition_point_below(list, start);
        let b = partition_point_below(list, end);
        proof {
            if b < a {
                assert(list@[b as int].spec_sort_key() >= start);
                assert(list@[b as int].spec_sort_key() < end);
            }
        }
        let r = vstd::slice::slice_subrange(list, a, b);
        r
    }
}

/// What the two symbols of a subtractor pair are: a weak import, or defined by a dylib.
#[derive(Debug, Clone, Copy, PartialEq, Eq)]
pub struct SubtractorTarget {
    pub is_weak_reference: bool,
    pub from_dylib: bool,
}

/// Why a subtractor pair's symbols were refused; `minuend` says which of the two.
#[derive(Debug, Clone, Copy, PartialEq, Eq)]
pub enum SubtractorTargetError {
    /// The symbol is a weak import, which may be absent at run time.
    WeakImport { minuend: bool },
    /// The symbol is supplied by a dylib, whose address is unknown at link time.
    DylibTarget { minuend: bool },
}

/// Checks the minuend, then the subtrahend, of a pointer difference: neither may be a weak
/// import or come from a dylib, since the difference is computed at link time.
pub fn validate_subtractor_pair_targets(minuend: SubtractorTarget, subtrahend: SubtractorTarget) -> (r:
    Result<(), SubtractorTargetError>)
    ensures
        r == if minuend.is_weak_reference {
            Err(SubtractorTargetError::WeakImport { minuend: true })
        } else if minuend.from_dylib {
            Err(SubtractorTargetError::DylibTarget { minuend: true })
        } else if subtrahend.is_weak_reference {
            Err(SubtractorTargetError::WeakImport { minuend: false })
        } else if subtrahend.from_dylib {
            Err(SubtractorTargetError::DylibTarget { minuend: false })
        } else {
            Ok::<(), SubtractorTargetError>(())
        },
{
    if minuend.is_weak_reference {
        return Err(SubtractorTargetError::WeakImport { minuend: true });
    }
    if minuend.from_dylib {
        return Err(SubtractorTargetError::DylibTarget { minuend: true });
    }
    if subtrahend.is_weak_reference {
        return Err(SubtractorTargetError::WeakImport { minuend: false });
    }
    if subtrahend.from_dylib {
        return Err(SubtractorTargetError::DylibTarget { minuend: false });
    }
    Ok(())
}

} // verus!
