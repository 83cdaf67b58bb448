//! What the size pass gathers from every input before any address is known: the imported
//! libraries, one per install name, and the amount of unwind input that bounds the synthesized
//! `__unwind_info` and `__eh_frame`.
use vstd::prelude::*;
use crate::segment::bytes_equal;
use crate::byte_order::{
    byte_order, bytes_before, lemma_bytes_before_strict, lemma_bytes_before_total,
    lemma_bytes_before_transitive, ByteOrder,
};

verus! {

/// The size of one `__compact_unwind` row.
pub const COMPACT_UNWIND_ENTRY_SIZE: usize = 32;

/// Why the unwind input could not be measured.
#[derive(Debug, Clone, Copy, PartialEq, Eq)]
pub enum SizeError {
    /// A `__compact_unwind` section is not a whole number of rows.
    MalformedCompactUnwind,
    /// The total overflows.
    Overflow,
}

/// A loaded dynamic library: its file and its install name.
#[derive(Debug)]
pub struct LoadedLibrary {
    pub file_id: u32,
    pub install_name: Vec<u8>,
}

/// Whether one of the first `n` libraries has install name `name`.
pub open spec fn name_seen(libraries: Seq<LoadedLibrary>, n: int, name: Seq<u8>) -> bool {
    exists|i: int| 0 <= i < n && (#[trigger] libraries[i]).install_name@ == name
}

/// The positions of the first `n` libraries that are the first with their install name, in
/// order.
pub open spec fn first_of_each_name(libraries: Seq<LoadedLibrary>, n: int) -> Seq<int>
    decreases n,
{
    if n <= 0 {
        Seq::empty()
    } else {
        let prev = first_of_each_name(libraries, n - 1);
        if name_seen(libraries, n - 1, libraries[n - 1].install_name@) {
            prev
        } else {
            prev.push(n - 1)
        }
    }
}

/// The files of the libraries at `positions`.
pub open spec fn files_at(libraries: Seq<LoadedLibrary>, positions: Seq<int>) -> Seq<u32> {
    positions.map_values(|k: int| libraries[k].file_id)
}

/// The libraries that get a load command: dyld names a library by its install name, so of the
/// inputs that share one (the SDK's `libSystem`, `libc` and `libm` stubs all identify as
/// `libSystem.B.dylib`) only the first is kept.
pub fn imported_library_file_ids(libraries: &[LoadedLibrary]) -> (r: Vec<u32>)
    ensures
        r@ == files_at(libraries@, first_of_each_name(libraries@, libraries@.len() as int)),
{
    let mut kept: Vec<u32> = Vec::new();
    let mut i: usize = 0;
    while i < libraries.len()
        invariant
            0 <= i <= libraries@.len(),
            kept@ == files_at(libraries@, first_of_each_name(libraries@, i as int)),
            forall|k: int|
                0 <= k < first_of_each_name(libraries@, i as int).len() ==> 0 <= #[trigger] first_of_each_name(
                    libraries@,
                    i as int,
                )[k] < i,
        decreases libraries@.len() - i,
    {
        let mut seen = false;
        let mut j: usize = 0;
        while j < i
            invariant
                0 <= j <= i < libraries@.len(),
                seen <==> name_seen(libraries@, j as int, libraries@[i as int].install_name@),
            decreases i - j,
        {
            let same = bytes_equal(libraries[j].install_name.as_slice(), libraries[i].install_name.as_slice());
            proof {
                if name_seen(libraries@, j + 1, libraries@[i as int].install_name@) && !same {
                    let w = choose|w: int|
                        0 <= w < j + 1 && (#[trigger] libraries@[w]).install_name@
                            == libraries@[i as int].install_name@;
                    assert(w < j);
                }
                if same {
                    assert(libraries@[j as int].install_name@ == libraries@[i as int].install_name@);
                }
            }
            seen = seen || same;
            j = j + 1;
        }
        let ghost before = first_of_each_name(libraries@, i as int);
        if !seen {
            kept.push(libraries[i].file_id);
            assert(kept@ =~= files_at(libraries@, before.push(i as int)));
        }
        i = i + 1;
    }
    kept
}

/// Each kept position is a library before `n` that is the first with its install name, and the
/// positions increase.
proof fn lemma_kept_positions(libraries: Seq<LoadedLibrary>, n: int)
    requires
        0 <= n <= libraries.len(),
    ensures
        forall|k: int|
            0 <= k < first_of_each_name(libraries, n).len() ==> {
                let p = #[trigger] first_of_each_name(libraries, n)[k];
                &&& 0 <= p < n
                &&& !name_seen(libraries, p, libraries[p].install_name@)
            },
        forall|a: int, b: int|
            0 <= a < b < first_of_each_name(libraries, n).len() ==> #[trigger] first_of_each_name(
                libraries,
                n,
            )[a] < #[trigger] first_of_each_name(libraries, n)[b],
    decreases n,
{
    if n > 0 {
        lemma_kept_positions(libraries, n - 1);
        let prev = first_of_each_name(libraries, n - 1);
        let kept = first_of_each_name(libraries, n);
        if !name_seen(libraries, n - 1, libraries[n - 1].install_name@) {
            assert(kept == prev.push(n - 1));
            assert forall|k: int| 0 <= k < kept.len() implies {
                let p = #[trigger] kept[k];
                &&& 0 <= p < n
                &&& !name_seen(libraries, p, libraries[p].install_name@)
            } by {
                if k < prev.len() {
                    assert(kept[k] == prev[k]);
                }
            }
            assert forall|a: int, b: int| 0 <= a < b < kept.len() implies #[trigger] kept[a] < #[trigger] kept[b] by {
                assert(kept[a] == prev[a]);
                if b < prev.len() {
                    assert(kept[b] == prev[b]);
                }
            }
        } else {
            assert(kept == prev);
        }
    }
}

/// Whether some kept position at or before `i` has the install name of library `i`.
pub open spec fn covered(libraries: Seq<LoadedLibrary>, kept: Seq<int>, i: int) -> bool {
    exists|k: int|
        0 <= k < kept.len() && kept[k] <= i && #[trigger] libraries[kept[k]].install_name@
            == libraries[i].install_name@
}

/// Every library before `n` shares its install name with a kept one at or before it.
proof fn lemma_kept_cover(libraries: Seq<LoadedLibrary>, n: int)
    requires
        0 <= n <= libraries.len(),
    ensures
        forall|i: int| 0 <= i < n ==> #[trigger] covered(libraries, first_of_each_name(libraries, n), i),
    decreases n,
{
    if n > 0 {
        lemma_kept_cover(libraries, n - 1);
        let prev = first_of_each_name(libraries, n - 1);
        let kept = first_of_each_name(libraries, n);
        assert(forall|k: int| 0 <= k < prev.len() ==> kept[k] == prev[k]);
        assert forall|i: int| 0 <= i < n implies #[trigger] covered(libraries, kept, i) by {
            if i < n - 1 {
                assert(covered(libraries, prev, i));
                let k = choose|k: int|
                    0 <= k < prev.len() && prev[k] <= i && #[trigger] libraries[prev[k]].install_name@
                        == libraries[i].install_name@;
                assert(kept[k] == prev[k]);
            } else if name_seen(libraries, n - 1, libraries[n - 1].install_name@) {
                let w = choose|w: int|
                    0 <= w < n - 1 && (#[trigger] libraries[w]).install_name@ == libraries[n - 1].install_name@;
                assert(covered(libraries, prev, w));
                let k = choose|k: int|
                    0 <= k < prev.len() && prev[k] <= w && #[trigger] libraries[prev[k]].install_name@
                        == libraries[w].install_name@;
                assert(kept[k] == prev[k]);
            } else {
                assert(kept[kept.len() - 1] == n - 1);
            }
        }
    }
}

/// The kept libraries are in input order and have pairwise different install names, and every
/// loaded library shares its install name with a kept one at or before it.
pub proof fn lemma_one_library_per_install_name(libraries: Seq<LoadedLibrary>, n: int)
    requires
        0 <= n <= libraries.len(),
    ensures
        forall|a: int, b: int|
            0 <= a < b < first_of_each_name(libraries, n).len() ==> #[trigger] first_of_each_name(
                libraries,
                n,
            )[a] < #[trigger] first_of_each_name(libraries, n)[b] && libraries[first_of_each_name(
                libraries,
                n,
            )[a]].install_name@ != libraries[first_of_each_name(libraries, n)[b]].install_name@,
        forall|i: int| 0 <= i < n ==> #[trigger] covered(libraries, first_of_each_name(libraries, n), i),
{
    lemma_kept_positions(libraries, n);
    lemma_kept_cover(libraries, n);
    let kept = first_of_each_name(libraries, n);
    assert forall|a: int, b: int| 0 <= a < b < kept.len() implies #[trigger] kept[a] < #[trigger] kept[b]
        && libraries[kept[a]].install_name@ != libraries[kept[b]].install_name@ by {
        let (pa, pb) = (kept[a], kept[b]);
        assert(pa < pb);
        assert(!name_seen(libraries, pb, libraries[pb].install_name@));
        if libraries[pa].install_name@ == libraries[pb].install_name@ {
            assert(0 <= pa < pb && libraries[pa].install_name@ == libraries[pb].install_name@);
            assert(name_seen(libraries, pb, libraries[pb].install_name@));
        }
    }
}

/// The number of rows in the first `n` sections, or why they cannot be counted.
pub open spec fn spec_compact_unwind_entry_count(section_sizes: Seq<usize>, n: int) -> Result<int, SizeError>
    decreases n,
{
    if n <= 0 {
        Ok(0)
    } else {
        match spec_compact_unwind_entry_count(section_sizes, n - 1) {
            Err(e) => Err(e),
            Ok(count) => if section_sizes[n - 1] % COMPACT_UNWIND_ENTRY_SIZE != 0 {
                Err(SizeError::MalformedCompactUnwind)
            } else if count + section_sizes[n - 1] / COMPACT_UNWIND_ENTRY_SIZE > usize::MAX {
                Err(SizeError::Overflow)
            } else {
                Ok(count + section_sizes[n - 1] / COMPACT_UNWIND_ENTRY_SIZE)
            },
        }
    }
}

/// The number of `__compact_unwind` rows of all inputs, from the sizes of their sections.
pub fn compact_unwind_entry_count(section_sizes: &[usize]) -> (r: Result<usize, SizeError>)
    ensures
        match spec_compact_unwind_entry_count(section_sizes@, section_sizes@.len() as int) {
            Ok(count) => r == Ok::<usize, SizeError>(count as usize),
            Err(e) => r == Err::<usize, SizeError>(e),
        },
{
    let mut count: usize = 0;
    let mut i: usize = 0;
    while i < section_sizes.len()
        invariant
            0 <= i <= section_sizes@.len(),
            spec_compact_unwind_entry_count(section_sizes@, i as int) == Ok::<int, SizeError>(count as int),
        decreases section_sizes@.len() - i,
    {
        let size = section_sizes[i];
        if size % COMPACT_UNWIND_ENTRY_SIZE != 0 {
            proof {
                lemma_entry_count_error_stays(section_sizes@, i + 1, section_sizes@.len() as int);
            }
            return Err(SizeError::MalformedCompactUnwind);
        }
        let rows = size / COMPACT_UNWIND_ENTRY_SIZE;
        if count > usize::MAX - rows {
            proof {
                lemma_entry_count_error_stays(section_sizes@, i + 1, section_sizes@.len() as int);
            }
            return Err(SizeError::Overflow);
        }
        count = count + rows;
        i = i + 1;
    }
    Ok(count)
}

/// Once the first `k` sections cannot be counted, none of the first `n` can.
proof fn lemma_entry_count_error_stays(section_sizes: Seq<usize>, k: int, n: int)
    requires
        0 <= k <= n,
        spec_compact_unwind_entry_count(section_sizes, k) is Err,
    ensures
        spec_compact_unwind_entry_count(section_sizes, n) == spec_compact_unwind_entry_count(section_sizes, k),
    decreases n - k,
{
    if n > k {
        lemma_entry_count_error_stays(section_sizes, k, n - 1);
    }
}

/// The sum of the first `n` sizes.
pub open spec fn total_size(sizes: Seq<usize>, n: int) -> int
    decreases n,
{
    if n <= 0 {
        0
    } else {
        total_size(sizes, n - 1) + sizes[n - 1]
    }
}

/// The total size of the `__eh_frame` sections of all inputs; `None` where it overflows.
pub fn eh_frame_input_size(section_sizes: &[usize]) -> (r: Option<usize>)
    ensures
        total_size(section_sizes@, section_sizes@.len() as int) <= usize::MAX ==> r == Some(
            total_size(section_sizes@, section_sizes@.len() as int) as usize,
        ),
        total_size(section_sizes@, section_sizes@.len() as int) > usize::MAX ==> r is None,
{
    let mut total: usize = 0;
    let mut i: usize = 0;
    while i < section_sizes.len()
        invariant
            0 <= i <= section_sizes@.len(),
            total as int == total_size(section_sizes@, i as int),
        decreases section_sizes@.len() - i,
    {
        if total > usize::MAX - section_sizes[i] {
            proof {
                lemma_total_size_grows(section_sizes@, i + 1, section_sizes@.len() as int);
            }
            return None;
        }
        total = total + section_sizes[i];
        i = i + 1;
    }
    Some(total)
}

/// A total only grows as more sizes are added.
proof fn lemma_total_size_grows(sizes: Seq<usize>, k: int, n: int)
    requires
        0 <= k <= n <= sizes.len(),
    ensures
        total_size(sizes, k) <= total_size(sizes, n),
    decreases n - k,
{
    if n > k {
        lemma_total_size_grows(sizes, k, n - 1);
    }
}

/// A selector send of some object: the object's file, the message symbol, the selector and the
/// selector's string symbol.
#[derive(Debug)]
pub struct ObjcStubReference {
    pub file_id: u32,
    pub message_symbol: u64,
    pub selector: Vec<u8>,
    pub selector_symbol: u64,
}

/// One synthesized selector stub: its selector, and the message and selector-string symbols of
/// the send that first asked for it.
#[derive(Debug, PartialEq, Eq)]
pub struct PlannedObjcStub {
    pub selector: Vec<u8>,
    pub message: (u32, u64),
    pub selector_symbol: (u32, u64),
}

/// The stubs by selector, and for each message symbol the stub its branches go to.
#[derive(Debug, PartialEq, Eq)]
pub struct ObjcStubPlan {
    pub stubs: Vec<PlannedObjcStub>,
    pub stub_indexes: Vec<((u32, u64), usize)>,
}

/// The message symbol of a send, as a key.
pub open spec fn message_key(r: ObjcStubReference) -> (u32, u64) {
    (r.file_id, r.message_symbol)
}

/// The order of message keys: by file, then by symbol.
pub open spec fn key_before(a: (u32, u64), b: (u32, u64)) -> bool {
    a.0 < b.0 || (a.0 == b.0 && a.1 < b.1)
}

/// The first of the first `n` sends with selector `selector`.
pub open spec fn first_with_selector(refs: Seq<ObjcStubReference>, selector: Seq<u8>, n: int) -> Option<int>
    decreases n,
{
    if n <= 0 {
        None
    } else {
        match first_with_selector(refs, selector, n - 1) {
            Some(i) => Some(i),
            None => if refs[n - 1].selector@ == selector {
                Some(n - 1)
            } else {
                None
            },
        }
    }
}

/// The last of the first `n` sends from message symbol `key`.
pub open spec fn last_with_key(refs: Seq<ObjcStubReference>, key: (u32, u64), n: int) -> Option<int>
    decreases n,
{
    if n <= 0 {
        None
    } else if message_key(refs[n - 1]) == key {
        Some(n - 1)
    } else {
        last_with_key(refs, key, n - 1)
    }
}

/// Whether `stub` is the stub that send `r` asks for.
pub open spec fn stub_of(stub: PlannedObjcStub, r: ObjcStubReference) -> bool {
    &&& stub.selector@ == r.selector@
    &&& stub.message == (r.file_id, r.message_symbol)
    &&& stub.selector_symbol == (r.file_id, r.selector_symbol)
}

/// Whether `stubs` are the stubs of the first `n` sends: one per selector, in selector order,
/// each that of the first send with its selector.
pub open spec fn stubs_planned(stubs: Seq<PlannedObjcStub>, refs: Seq<ObjcStubReference>, n: int) -> bool {
    &&& forall|a: int, b: int|
        0 <= a < b < stubs.len() ==> bytes_before((#[trigger] stubs[a]).selector@, (#[trigger] stubs[b]).selector@)
    &&& forall|k: int|
        0 <= k < stubs.len() ==> (first_with_selector(refs, (#[trigger] stubs[k]).selector@, n) matches Some(i)
            && stub_of(stubs[k], refs[i]))
    &&& forall|i: int|
        0 <= i < n ==> exists|k: int|
            0 <= k < stubs.len() && (#[trigger] stubs[k]).selector@ == (#[trigger] refs[i]).selector@
}

/// Whether `indexes` name, for each message symbol of the first `n` sends, in key order, the
/// stub of the selector of its last send.
pub open spec fn indexes_planned(
    indexes: Seq<((u32, u64), usize)>,
    stubs: Seq<PlannedObjcStub>,
    refs: Seq<ObjcStubReference>,
    n: int,
) -> bool {
    &&& forall|a: int, b: int|
        0 <= a < b < indexes.len() ==> key_before((#[trigger] indexes[a]).0, (#[trigger] indexes[b]).0)
    &&& forall|k: int|
        0 <= k < indexes.len() ==> (last_with_key(refs, (#[trigger] indexes[k]).0, n) matches Some(i)
            && indexes[k].1 < stubs.len() && stubs[indexes[k].1 as int].selector@ == refs[i].selector@)
    &&& forall|i: int|
        0 <= i < n ==> exists|k: int|
            0 <= k < indexes.len() && (#[trigger] indexes[k]).0 == message_key(#[trigger] refs[i])
}

/// Plans the selector stubs of all selector sends, in the order the objects were loaded: one
/// stub per selector, ordered by selector, made from the first send that asks for it, and for
/// each message symbol the stub of its selector.
pub fn plan_objc_message_stubs(refs: &[ObjcStubReference]) -> (r: ObjcStubPlan)
    ensures
        stubs_planned(r.stubs@, refs@, refs@.len() as int),
        indexes_planned(r.stub_indexes@, r.stubs@, refs@, refs@.len() as int),
{
    let stubs = plan_stubs(refs);
    let indexes = plan_indexes(refs, &stubs);
    ObjcStubPlan { stubs, stub_indexes: indexes }
}

/// The stubs of all sends.
fn plan_stubs(refs: &[ObjcStubReference]) -> (stubs: Vec<PlannedObjcStub>)
    ensures
        stubs_planned(stubs@, refs@, refs@.len() as int),
{
    let mut stubs: Vec<PlannedObjcStub> = Vec::new();
    let mut i: usize = 0;
    while i < refs.len()
        invariant
            0 <= i <= refs@.len(),
            stubs_planned(stubs@, refs@, i as int),
        decreases refs@.len() - i,
    {
        let r = &refs[i];
        let mut p: usize = 0;
        while p < stubs.len() && selector_is_before(stubs[p].selector.as_slice(), r.selector.as_slice())
            invariant
                0 <= p <= stubs@.len(),
                forall|k: int| 0 <= k < p ==> bytes_before((#[trigger] stubs@[k]).selector@, r.selector@),
            decreases stubs@.len() - p,
        {
            p = p + 1;
        }
        let same = p < stubs.len() && bytes_equal(stubs[p].selector.as_slice(), r.selector.as_slice());
        let ghost before = stubs@;
        proof {
            lemma_first_with_selector_extends(refs@, i as int);
            if !same {
                if p < before.len() {
                    lemma_bytes_before_total(before[p as int].selector@, r.selector@);
                    assert(bytes_before(r.selector@, before[p as int].selector@));
                }
                assert forall|k: int| 0 <= k < before.len() implies (#[trigger] before[k]).selector@ != r.selector@ by {
                    if k < p {
                        lemma_bytes_before_strict(before[k].selector@, r.selector@);
                        lemma_bytes_before_strict(r.selector@, r.selector@);
                    } else if k > p {
                        lemma_bytes_before_transitive(r.selector@, before[p as int].selector@, before[k].selector@);
                        lemma_bytes_before_strict(r.selector@, r.selector@);
                    } else {
                        lemma_bytes_before_strict(r.selector@, r.selector@);
                    }
                }
                assert(first_with_selector(refs@, r.selector@, i as int) is None) by {
                    if first_with_selector(refs@, r.selector@, i as int) is Some {
                        lemma_first_with_selector_found(refs@, r.selector@, i as int);
                        let j = first_with_selector(refs@, r.selector@, i as int)->0;
                        let k = choose|k: int|
                            0 <= k < before.len() && (#[trigger] before[k]).selector@ == (#[trigger] refs@[j]).selector@;
                    }
                }
            }
        }
        if !same {
            let stub = PlannedObjcStub {
                selector: r.selector.clone(),
                message: (r.file_id, r.message_symbol),
                selector_symbol: (r.file_id, r.selector_symbol),
            };
            assert(stub.selector@ == r.selector@);
            stubs.insert(p, stub);
            proof {
                assert(stubs@ == before.insert(p as int, stub));
                assert forall|a: int, b: int|
                    0 <= a < b < stubs@.len() implies bytes_before(
                    (#[trigger] stubs@[a]).selector@,
                    (#[trigger] stubs@[b]).selector@,
                ) by {
                    if b < p {
                    } else if b == p {
                        assert(stubs@[a] == before[a]);
                    } else if a < p {
                        assert(stubs@[a] == before[a]);
                        assert(stubs@[b] == before[b - 1]);
                        if b - 1 == p {
                            lemma_bytes_before_transitive(before[a].selector@, r.selector@, before[b - 1].selector@);
                        } else {
                            assert(bytes_before(before[p as int].selector@, before[b - 1].selector@));
                            lemma_bytes_before_transitive(r.selector@, before[p as int].selector@, before[b - 1].selector@);
                            lemma_bytes_before_transitive(before[a].selector@, r.selector@, before[b - 1].selector@);
                        }
                    } else if a == p {
                        assert(stubs@[b] == before[b - 1]);
                        if b - 1 > p {
                            lemma_bytes_before_transitive(r.selector@, before[p as int].selector@, before[b - 1].selector@);
                        }
                    } else {
                        assert(stubs@[a] == before[a - 1]);
                        assert(stubs@[b] == before[b - 1]);
                    }
                }
                assert forall|k: int| 0 <= k < stubs@.len() implies (first_with_selector(
                    refs@,
                    (#[trigger] stubs@[k]).selector@,
                    i + 1,
                ) matches Some(x) && stub_of(stubs@[k], refs@[x])) by {
                    if k != p {
                        let old_k = if k < p { k } else { k - 1 };
                        assert(stubs@[k] == before[old_k]);
                    }
                }
                assert forall|j: int| 0 <= j < i + 1 implies exists|k: int|
                    0 <= k < stubs@.len() && (#[trigger] stubs@[k]).selector@ == (#[trigger] refs@[j]).selector@ by {
                    if j == i {
                        assert(stubs@[p as int].selector@ == refs@[j].selector@);
                    } else {
                        let k = choose|k: int|
                            0 <= k < before.len() && (#[trigger] before[k]).selector@ == (#[trigger] refs@[j]).selector@;
                        let new_k = if k < p { k } else { k + 1 };
                        assert(stubs@[new_k] == before[k]);
                    }
                }
            }
        } else {
            proof {
                assert(before[p as int].selector@ == r.selector@);
                assert forall|j: int| 0 <= j < i + 1 implies exists|k: int|
                    0 <= k < stubs@.len() && (#[trigger] stubs@[k]).selector@ == (#[trigger] refs@[j]).selector@ by {
                    if j == i {
                        assert(stubs@[p as int].selector@ == refs@[j].selector@);
                    }
                }
            }
        }
        i = i + 1;
    }
    stubs
}

/// The first send with a selector among `n + 1` is that among `n` when there is one.
proof fn lemma_first_with_selector_extends(refs: Seq<ObjcStubReference>, n: int)
    requires
        0 <= n < refs.len(),
    ensures
        forall|sel: Seq<u8>|
            #[trigger] first_with_selector(refs, sel, n) is Some ==> first_with_selector(refs, sel, n + 1)
                == first_with_selector(refs, sel, n),
        first_with_selector(refs, refs[n].selector@, n) is None ==> first_with_selector(
            refs,
            refs[n].selector@,
            n + 1,
        ) == Some(n),
{
}

/// A first send with a selector has it, and lies before `n`.
proof fn lemma_first_with_selector_found(refs: Seq<ObjcStubReference>, selector: Seq<u8>, n: int)
    requires
        first_with_selector(refs, selector, n) is Some,
    ensures
        0 <= first_with_selector(refs, selector, n)->0 < n,
        refs[first_with_selector(refs, selector, n)->0].selector@ == selector,
    decreases n,
{
    if n > 0 && first_with_selector(refs, selector, n - 1) is Some {
        lemma_first_with_selector_found(refs, selector, n - 1);
    }
}

/// For each message symbol, the stub its sends go to.
fn plan_indexes(refs: &[ObjcStubReference], stubs: &Vec<PlannedObjcStub>) -> (indexes: Vec<((u32, u64), usize)>)
    requires
        stubs_planned(stubs@, refs@, refs@.len() as int),
    ensures
        indexes_planned(indexes@, stubs@, refs@, refs@.len() as int),
{
    let mut indexes: Vec<((u32, u64), usize)> = Vec::new();
    let mut i: usize = 0;
    while i < refs.len()
        invariant
            0 <= i <= refs@.len(),
            stubs_planned(stubs@, refs@, refs@.len() as int),
            indexes_planned(indexes@, stubs@, refs@, i as int),
        decreases refs@.len() - i,
    {
        let r = &refs[i];
        let key = (r.file_id, r.message_symbol);
        let mut s: usize = 0;
        while s < stubs.len() && !bytes_equal(stubs[s].selector.as_slice(), r.selector.as_slice())
            invariant
                0 <= s <= stubs@.len(),
                forall|k: int| 0 <= k < s ==> (#[trigger] stubs@[k]).selector@ != r.selector@,
            decreases stubs@.len() - s,
        {
            s = s + 1;
        }
        proof {
            if s >= stubs@.len() {
                let k = choose|k: int|
                    0 <= k < stubs@.len() && (#[trigger] stubs@[k]).selector@ == (#[trigger] refs@[i as int]).selector@;
            }
        }
        let mut p: usize = 0;
        while p < indexes.len() && key_is_before(indexes[p].0, key)
            invariant
                0 <= p <= indexes@.len(),
                forall|k: int| 0 <= k < p ==> key_before((#[trigger] indexes@[k]).0, key),
            decreases indexes@.len() - p,
        {
            p = p + 1;
        }
        let ghost before = indexes@;
        let replace = p < indexes.len() && indexes[p].0.0 == key.0 && indexes[p].0.1 == key.1;
        if replace {
            indexes.set(p, (key, s));
        } else {
            indexes.insert(p, (key, s));
        }
        proof {
            if !replace && p < before.len() {
                assert(key_before(key, before[p as int].0));
            }
            assert forall|a: int, b: int| 0 <= a < b < indexes@.len() implies key_before(
                (#[trigger] indexes@[a]).0,
                (#[trigger] indexes@[b]).0,
            ) by {
                if !replace {
                    if b == p {
                        assert(indexes@[a] == before[a]);
                    } else if a == p {
                        assert(indexes@[b] == before[b - 1]);
                        if b - 1 > p {
                            assert(key_before(before[p as int].0, before[b - 1].0));
                        }
                    } else if a < p && b > p {
                        assert(indexes@[a] == before[a]);
                        assert(indexes@[b] == before[b - 1]);
                        if b - 1 > p {
                            assert(key_before(before[p as int].0, before[b - 1].0));
                        }
                    } else if a > p {
                        assert(indexes@[a] == before[a - 1]);
                        assert(indexes@[b] == before[b - 1]);
                    }
                } else {
                    assert(indexes@[a].0 == before[a].0);
                    assert(indexes@[b].0 == before[b].0);
                }
            }
            assert forall|k: int| 0 <= k < indexes@.len() implies (last_with_key(
                refs@,
                (#[trigger] indexes@[k]).0,
                i + 1,
            ) matches Some(x) && indexes@[k].1 < stubs@.len() && stubs@[indexes@[k].1 as int].selector@
                == refs@[x].selector@) by {
                if replace {
                    if k != p {
                        assert(indexes@[k] == before[k]);
                        assert(before[k].0 != key) by {
                            if k < p {
                                assert(key_before(before[k].0, key));
                            } else {
                                assert(key_before(before[p as int].0, before[k].0));
                            }
                        }
                    }
                } else if k != p {
                    let old_k = if k < p { k } else { k - 1 };
                    assert(indexes@[k] == before[old_k]);
                    assert(before[old_k].0 != key) by {
                        if old_k < p {
                            assert(key_before(before[old_k].0, key));
                        } else {
                            assert(key_before(key, before[p as int].0));
                            if old_k > p {
                                assert(key_before(before[p as int].0, before[old_k].0));
                            }
                        }
                    }
                }
            }
            assert forall|j: int| 0 <= j < i + 1 implies exists|k: int|
                0 <= k < indexes@.len() && (#[trigger] indexes@[k]).0 == message_key(#[trigger] refs@[j]) by {
                if j == i {
                    assert(indexes@[p as int].0 == message_key(refs@[j]));
                } else {
                    let k = choose|k: int|
                        0 <= k < before.len() && (#[trigger] before[k]).0 == message_key(#[trigger] refs@[j]);
                    if replace {
                        assert(indexes@[k].0 == before[k].0);
                    } else {
                        let new_k = if k < p { k } else { k + 1 };
                        assert(indexes@[new_k] == before[k]);
                    }
                }
            }
        }
        i = i + 1;
    }
    indexes
}

/// Whether selector `a` sorts before `b`.
fn selector_is_before(a: &[u8], b: &[u8]) -> (r: bool)
    ensures
        r == bytes_before(a@, b@),
{
    match byte_order(a, b) {
        ByteOrder::Before => true,
        _ => false,
    }
}

/// Whether message key `a` sorts before `b`.
fn key_is_before(a: (u32, u64), b: (u32, u64)) -> (r: bool)
    ensures
        r == key_before(a, b),
{
    a.0 < b.0 || (a.0 == b.0 && a.1 < b.1)
}

} // verus!
