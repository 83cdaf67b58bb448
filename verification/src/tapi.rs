//! Text-based dylib stubs (`.tbd`, TAPI version 4): a recognizer for the regular spelling that
//! Xcode SDKs use, and the walk of an umbrella's reexported libraries.
//!
//! The recognizer reads flow sequences (`[ a, 'b' ]`), scalars and the conventional indented
//! lists. Anything else — block sequences, escapes, aliases — makes it decline, and the caller
//! falls back to a complete YAML reader.
use vstd::prelude::*;
use crate::text::{
    find_byte, find_from, has_non_space, has_prefix_at, is_ascii_ws, lemma_find_from,
    lemma_skip_space, lemma_skip_space_shift, lemma_skip_space_to, line_end, next_line_start,
    skip_space, skip_space_to, skip_whitespace, skip_whitespace_to, starts_with_at, text_end,
    line_text_end,
};

verus! {

/// The end of an unquoted scalar starting at `i`: the first ASCII whitespace or `#`.
pub open spec fn scalar_end(v: Seq<u8>, i: int) -> int
    decreases v.len() - i,
{
    if i < 0 || i >= v.len() {
        v.len() as int
    } else if is_ascii_ws(v[i]) || v[i] == 35u8 {
        i
    } else {
        scalar_end(v, i + 1)
    }
}

/// A scalar value: after leading whitespace, either a single-quoted string without doubled
/// quotes, or the run up to whitespace or `#`.
pub open spec fn spec_scalar_value(v: Seq<u8>) -> Option<Seq<u8>> {
    let i = skip_space(v, 0);
    if i < v.len() && v[i] == 39u8 {
        match find_from(v, i + 1, 39u8) {
            None => None,
            Some(q) => if q + 1 < v.len() && v[q + 1] == 39u8 {
                None
            } else {
                Some(v.subrange(i + 1, q))
            },
        }
    } else {
        Some(v.subrange(i, scalar_end(v, i)))
    }
}

/// Bounds of the scanning positions.
proof fn lemma_tapi_scan_bounds(v: Seq<u8>, i: int)
    requires
        0 <= i <= v.len(),
    ensures
        i <= scalar_end(v, i) <= v.len(),
        flow_end(v, i) matches Some(e) ==> i <= e < v.len(),
    decreases v.len() - i,
{
    if i < v.len() {
        lemma_tapi_scan_bounds(v, i + 1);
    }
}

/// The end of an unquoted scalar.
fn scalar_stop(v: &[u8], i: usize) -> (r: usize)
    requires
        i <= v@.len(),
    ensures
        r == scalar_end(v@, i as int),
{
    let mut j = i;
    while j < v.len()
        invariant
            i <= j <= v@.len(),
            scalar_end(v@, i as int) == scalar_end(v@, j as int),
        decreases v@.len() - j,
    {
        let b = v[j];
        if b == 32 || b == 9 || b == 10 || b == 12 || b == 13 || b == 35u8 {
            return j;
        }
        j = j + 1;
    }
    j
}

/// Reads a scalar value.
pub fn scalar_value(v: &[u8]) -> (r: Option<&[u8]>)
    ensures
        match spec_scalar_value(v@) {
            None => r is None,
            Some(x) => r matches Some(y) && y@ == x,
        },
{
    proof {
        lemma_skip_space(v@, 0);
    }
    let i = skip_whitespace(v, 0);
    if i < v.len() && v[i] == 39u8 {
        proof {
            lemma_find_from(v@, i + 1, 39u8);
        }
        let q = find_byte(v, i + 1, 39u8)?;
        if q + 1 < v.len() && v[q + 1] == 39u8 {
            return None;
        }
        Some(vstd::slice::slice_subrange(v, i + 1, q))
    } else {
        proof {
            lemma_tapi_scan_bounds(v@, i as int);
        }
        let e = scalar_stop(v, i);
        Some(vstd::slice::slice_subrange(v, i, e))
    }
}

/// The end of an unquoted flow-sequence item starting at `i`: the first ASCII whitespace, `,`
/// or `]`; `None` when the text ends first.
pub open spec fn flow_end(v: Seq<u8>, i: int) -> Option<int>
    decreases v.len() - i,
{
    if i < 0 || i >= v.len() {
        None
    } else if is_ascii_ws(v[i]) || v[i] == 44u8 || v[i] == 93u8 {
        Some(i)
    } else {
        flow_end(v, i + 1)
    }
}

/// One flow-sequence item at `p` and the position after it.
pub open spec fn flow_item(v: Seq<u8>, p: int) -> Option<(Seq<u8>, int)> {
    if p < v.len() && v[p] == 39u8 {
        match find_from(v, p + 1, 39u8) {
            None => None,
            Some(q) => if q + 1 < v.len() && v[q + 1] == 39u8 {
                None
            } else {
                Some((v.subrange(p + 1, q), q + 1))
            },
        }
    } else {
        match flow_end(v, p) {
            None => None,
            Some(e) => Some((v.subrange(p, e), e)),
        }
    }
}

/// The items of a flow sequence from `pos` through its closing `]`: each item is non-empty and
/// followed by `,` or the closing bracket.
pub open spec fn spec_flow_from(v: Seq<u8>, pos: int) -> Option<Seq<Seq<u8>>>
    decreases v.len() - pos,
{
    let p = skip_space(v, pos);
    if p < v.len() && v[p] == 93u8 {
        Some(Seq::empty())
    } else {
        match flow_item(v, p) {
            None => None,
            Some((item, rest)) => if item.len() == 0 {
                None
            } else {
                let p2 = skip_space(v, rest);
                if p2 < v.len() && v[p2] == 44u8 {
                    if pos < p2 + 1 <= v.len() {
                        match spec_flow_from(v, p2 + 1) {
                            Some(r) => Some(seq![item] + r),
                            None => None,
                        }
                    } else {
                        None
                    }
                } else if p2 < v.len() && v[p2] == 93u8 {
                    Some(seq![item])
                } else {
                    None
                }
            },
        }
    }
}

/// A flow sequence `[ a, 'b', ... ]`.
pub open spec fn spec_flow_sequence(v: Seq<u8>) -> Option<Seq<Seq<u8>>> {
    let i = skip_space(v, 0);
    if i < v.len() && v[i] == 91u8 {
        spec_flow_from(v, i + 1)
    } else {
        None
    }
}

/// The byte strings held by a list.
pub open spec fn strings_view(v: Seq<Vec<u8>>) -> Seq<Seq<u8>> {
    v.map_values(|x: Vec<u8>| x@)
}

/// The end of an unquoted flow item.
fn flow_stop(v: &[u8], i: usize) -> (r: Option<usize>)
    requires
        i <= v@.len(),
    ensures
        match r {
            Some(e) => flow_end(v@, i as int) == Some(e as int),
            None => flow_end(v@, i as int) is None,
        },
{
    let mut j = i;
    while j < v.len()
        invariant
            i <= j <= v@.len(),
            flow_end(v@, i as int) == flow_end(v@, j as int),
        decreases v@.len() - j,
    {
        let b = v[j];
        if b == 32 || b == 9 || b == 10 || b == 12 || b == 13 || b == 44u8 || b == 93u8 {
            return Some(j);
        }
        j = j + 1;
    }
    None
}

/// Reads a flow sequence `[ a, 'b', ... ]`, declining quoted items with doubled quotes, empty
/// items and anything that is not a flow sequence.
pub fn flow_sequence(v: &[u8]) -> (r: Option<Vec<Vec<u8>>>)
    ensures
        match spec_flow_sequence(v@) {
            None => r is None,
            Some(items) => r matches Some(x) && strings_view(x@) == items,
        },
{
    let n = v.len();
    proof {
        lemma_skip_space(v@, 0);
    }
    let i = skip_whitespace(v, 0);
    if !(i < n && v[i] == 91u8) {
        return None;
    }
    let mut values: Vec<Vec<u8>> = Vec::new();
    let ghost mut acc: Seq<Seq<u8>> = Seq::empty();
    let mut pos = i + 1;
    while pos <= n
        invariant
            i < pos <= n,
            n == v@.len(),
            spec_flow_sequence(v@) == match spec_flow_from(v@, pos as int) {
                Some(rest) => Some(acc + rest),
                None => None,
            },
            strings_view(values@) == acc,
        decreases n - pos,
    {
        proof {
            lemma_skip_space(v@, pos as int);
        }
        let p = skip_whitespace(v, pos);
        if p < n && v[p] == 93u8 {
            assert(acc + Seq::<Seq<u8>>::empty() =~= acc);
            return Some(values);
        }
        let (item, rest) = if p < n && v[p] == 39u8 {
            proof {
                lemma_find_from(v@, p + 1, 39u8);
            }
            let q = find_byte(v, p + 1, 39u8)?;
            if q + 1 < n && v[q + 1] == 39u8 {
                return None;
            }
            (vstd::slice::slice_subrange(v, p + 1, q), q + 1)
        } else {
            proof {
                lemma_tapi_scan_bounds(v@, p as int);
            }
            let e = flow_stop(v, p)?;
            (vstd::slice::slice_subrange(v, p, e), e)
        };
        assert(flow_item(v@, p as int) == Some((item@, rest as int)));
        if item.len() == 0 {
            return None;
        }
        proof {
            lemma_skip_space(v@, rest as int);
        }
        let p2 = skip_whitespace(v, rest);
        let ghost before = values@;
        values.push(vstd::slice::slice_to_vec(item));
        proof {
            assert(strings_view(values@) =~= strings_view(before).push(item@));
        }
        if p2 < n && v[p2] == 44u8 {
            proof {
                match spec_flow_from(v@, p2 + 1) {
                    Some(r) => {
                        assert(acc + (seq![item@] + r) =~= acc.push(item@) + r);
                    },
                    None => {},
                }
                acc = acc.push(item@);
            }
            pos = p2 + 1;
        } else if p2 < n && v[p2] == 93u8 {
            assert(acc + seq![item@] =~= acc.push(item@));
            return Some(values);
        } else {
            return None;
        }
    }
    None
}

/// A missing field is an empty sequence; a present one must be a flow sequence.
pub open spec fn spec_optional_flow_sequence(value: Option<Seq<u8>>) -> Option<Seq<Seq<u8>>> {
    match value {
        None => Some(Seq::empty()),
        Some(v) => spec_flow_sequence(v),
    }
}

/// Reads an optional flow sequence: a missing field is empty.
pub fn optional_flow_sequence(value: Option<&[u8]>) -> (r: Option<Vec<Vec<u8>>>)
    ensures
        match spec_optional_flow_sequence(
            match value {
                Some(v) => Some(v@),
                None => None,
            },
        ) {
            None => r is None,
            Some(items) => r matches Some(x) && strings_view(x@) == items,
        },
{
    match value {
        None => {
            let empty: Vec<Vec<u8>> = Vec::new();
            assert(strings_view(empty@) =~= Seq::<Seq<u8>>::empty());
            Some(empty)
        },
        Some(v) => flow_sequence(v),
    }
}

/// The value of the top-level field `wanted:`, scanning lines from `ls`: it starts after the
/// colon and runs to the start of the next unindented line, or to the end. `value_start` is the
/// start of a value already found.
pub open spec fn top_scan(doc: Seq<u8>, wanted: Seq<u8>, ls: int, value_start: Option<int>) -> Option<
    Seq<u8>,
>
    decreases doc.len() - ls,
{
    if ls < 0 || ls >= doc.len() {
        match value_start {
            Some(s) => Some(doc.subrange(s, doc.len() as int)),
            None => None,
        }
    } else {
        let e = line_end(doc, ls);
        let t = text_end(doc, ls, e);
        let indented = t > ls && (doc[ls] == 32u8 || doc[ls] == 9u8);
        if ls < e <= doc.len() {
            if !indented {
                match value_start {
                    Some(s) => Some(doc.subrange(s, ls)),
                    None => if has_prefix_at(doc, ls, t, wanted) && ls + wanted.len() < t && doc[ls
                        + wanted.len()] == 58u8 {
                        top_scan(doc, wanted, e, Some(ls + wanted.len() + 1))
                    } else {
                        top_scan(doc, wanted, e, None)
                    },
                }
            } else {
                top_scan(doc, wanted, e, value_start)
            }
        } else {
            None
        }
    }
}

/// The value of the top-level field `wanted:` of a document.
pub open spec fn spec_top_level_value(doc: Seq<u8>, wanted: Seq<u8>) -> Option<Seq<u8>> {
    top_scan(doc, wanted, 0, None)
}

/// A line's end lies after its start and within the text; its text ends within the line.
proof fn lemma_line_bounds(s: Seq<u8>, ls: int)
    requires
        0 <= ls < s.len(),
    ensures
        ls < line_end(s, ls) <= s.len(),
        ls <= text_end(s, ls, line_end(s, ls)) <= line_end(s, ls),
{
    lemma_find_from(s, ls, 10u8);
    lemma_text_end(s, ls, line_end(s, ls));
}

/// The text of a line ends within it.
proof fn lemma_text_end(s: Seq<u8>, start: int, end: int)
    requires
        start <= end,
    ensures
        start <= text_end(s, start, end) <= end,
    decreases end - start,
{
    if end > start && (s[end - 1] == 10u8 || s[end - 1] == 13u8) {
        lemma_text_end(s, start, end - 1);
    }
}

/// Returns the value of the top-level field `wanted:`: the text after its colon through the
/// next unindented line. The conventional spelling indents every nested list, so an unindented
/// line is an unambiguous boundary.
pub fn top_level_value<'a>(document: &'a [u8], wanted: &[u8]) -> (r: Option<&'a [u8]>)
    ensures
        match spec_top_level_value(document@, wanted@) {
            None => r is None,
            Some(x) => r matches Some(y) && y@ == x,
        },
{
    let n = document.len();
    let mut value_start: Option<usize> = None;
    let mut ls: usize = 0;
    while ls < n
        invariant
            ls <= n,
            n == document@.len(),
            value_start matches Some(s) ==> s <= ls,
            spec_top_level_value(document@, wanted@) == top_scan(
                document@,
                wanted@,
                ls as int,
                match value_start {
                    Some(s) => Some(s as int),
                    None => None,
                },
            ),
        decreases n - ls,
    {
        proof {
            lemma_line_bounds(document@, ls as int);
        }
        let e = next_line_start(document, ls);
        let t = line_text_end(document, ls, e);
        let indented = t > ls && (document[ls] == 32u8 || document[ls] == 9u8);
        if !indented {
            match value_start {
                Some(s) => {
                    return Some(vstd::slice::slice_subrange(document, s, ls));
                },
                None => {
                    if starts_with_at(document, ls, t, wanted) && ls + wanted.len() < t
                        && document[ls + wanted.len()] == 58u8 {
                        value_start = Some(ls + wanted.len() + 1);
                    }
                },
            }
        }
        ls = e;
    }
    match value_start {
        Some(s) => Some(vstd::slice::slice_subrange(document, s, n)),
        None => None,
    }
}

/// `- `.
pub open spec fn dash_space() -> Seq<u8> {
    seq![45u8, 32u8]
}

/// The value of the field `wanted:` within a list entry, scanning lines from `ls`: on the first
/// line whose text, after indentation and an optional `- `, begins with `wanted:`, the value
/// runs from after the colon to the end of the entry.
pub open spec fn entry_scan(entry: Seq<u8>, wanted: Seq<u8>, ls: int) -> Option<Seq<u8>>
    decreases entry.len() - ls,
{
    if ls < 0 || ls >= entry.len() {
        None
    } else {
        let e = line_end(entry, ls);
        let t = text_end(entry, ls, e);
        let a = skip_space_to(entry, ls, t);
        let a2 = if has_prefix_at(entry, a, t, dash_space()) {
            a + 2
        } else {
            a
        };
        if has_prefix_at(entry, a2, t, wanted) && a2 + wanted.len() < t && entry[a2
            + wanted.len()] == 58u8 {
            Some(entry.subrange(a2 + wanted.len() + 1, entry.len() as int))
        } else if ls < e <= entry.len() {
            entry_scan(entry, wanted, e)
        } else {
            None
        }
    }
}

/// The value of the field `wanted:` within a list entry.
pub open spec fn spec_entry_value(entry: Seq<u8>, wanted: Seq<u8>) -> Option<Seq<u8>> {
    entry_scan(entry, wanted, 0)
}

/// Returns the value of the field `wanted:` within a list entry, from after its colon to the
/// end of the entry.
pub fn entry_value<'a>(entry: &'a [u8], wanted: &[u8]) -> (r: Option<&'a [u8]>)
    ensures
        match spec_entry_value(entry@, wanted@) {
            None => r is None,
            Some(x) => r matches Some(y) && y@ == x,
        },
{
    let n = entry.len();
    let dash: [u8; 2] = [45u8, 32u8];
    assert(dash@ =~= dash_space());
    let mut ls: usize = 0;
    while ls < n
        invariant
            ls <= n,
            n == entry@.len(),
            dash@ == dash_space(),
            spec_entry_value(entry@, wanted@) == entry_scan(entry@, wanted@, ls as int),
        decreases n - ls,
    {
        proof {
            lemma_line_bounds(entry@, ls as int);
        }
        let e = next_line_start(entry, ls);
        let t = line_text_end(entry, ls, e);
        let a = skip_whitespace_to(entry, ls, t);
        let a2 = if starts_with_at(entry, a, t, dash.as_slice()) {
            a + 2
        } else {
            a
        };
        if starts_with_at(entry, a2, t, wanted) && a2 + wanted.len() < t && entry[a2
            + wanted.len()] == 58u8 {
            return Some(vstd::slice::slice_subrange(entry, a2 + wanted.len() + 1, n));
        }
        ls = e;
    }
    None
}

/// Where the list entries of a block begin, scanning lines from `ls`: just after a `- ` marker
/// that follows the indentation of an indented line.
pub open spec fn entry_starts(block: Seq<u8>, ls: int) -> Seq<int>
    decreases block.len() - ls,
{
    if ls < 0 || ls >= block.len() {
        Seq::empty()
    } else {
        let e = line_end(block, ls);
        let t = text_end(block, ls, e);
        let here = if t > ls && (block[ls] == 32u8 || block[ls] == 9u8) && has_prefix_at(
            block,
            skip_space_to(block, ls, t),
            t,
            dash_space(),
        ) {
            seq![skip_space_to(block, ls, t) + 2]
        } else {
            Seq::empty()
        };
        if ls < e <= block.len() {
            here + entry_starts(block, e)
        } else {
            here
        }
    }
}

/// The list entries of a block: the text from each entry start to the next, or to the end.
pub open spec fn spec_list_entries(block: Seq<u8>) -> Seq<Seq<u8>> {
    let st = entry_starts(block, 0);
    Seq::new(
        st.len(),
        |k: int|
            block.subrange(
                st[k],
                if k + 1 < st.len() {
                    st[k + 1]
                } else {
                    block.len() as int
                },
            ),
    )
}

/// Entry starts increase, lie after `ls` and within the block.
proof fn lemma_entry_starts(block: Seq<u8>, ls: int)
    requires
        0 <= ls,
    ensures
        forall|k: int|
            0 <= k < entry_starts(block, ls).len() ==> ls < #[trigger] entry_starts(block, ls)[k]
                <= block.len(),
        forall|k: int, j: int|
            0 <= k < j < entry_starts(block, ls).len() ==> #[trigger] entry_starts(block, ls)[k]
                < #[trigger] entry_starts(block, ls)[j],
    decreases block.len() - ls,
{
    if ls < block.len() {
        lemma_line_bounds(block, ls);
        let e = line_end(block, ls);
        let t = text_end(block, ls, e);
        lemma_skip_space_to(block, ls, t);
        lemma_entry_starts(block, e);
        let st = entry_starts(block, ls);
        let rest = entry_starts(block, e);
        let here = if t > ls && (block[ls] == 32u8 || block[ls] == 9u8) && has_prefix_at(
            block,
            skip_space_to(block, ls, t),
            t,
            dash_space(),
        ) {
            seq![skip_space_to(block, ls, t) + 2]
        } else {
            Seq::empty()
        };
        assert(st == here + rest);
        assert forall|k: int| 0 <= k < st.len() implies ls < #[trigger] st[k] <= block.len() by {
            if k >= here.len() {
                assert(st[k] == rest[k - here.len()]);
            }
        }
        assert forall|k: int, j: int| 0 <= k < j < st.len() implies #[trigger] st[k]
            < #[trigger] st[j] by {
            if k >= here.len() {
                assert(st[k] == rest[k - here.len()]);
                assert(st[j] == rest[j - here.len()]);
            } else {
                assert(st[j] == rest[j - here.len()]);
            }
        }
    }
}

/// Splits a block of conventional nested list entries into the text after each `- ` marker.
/// The marker counts only on an indented line, so a flow-sequence value is never mistaken for
/// an entry.
pub fn standard_list_entries(block: &[u8]) -> (r: Vec<&[u8]>)
    ensures
        r@.len() == spec_list_entries(block@).len(),
        forall|k: int| 0 <= k < r@.len() ==> (#[trigger] r@[k])@ == spec_list_entries(block@)[k],
{
    let n = block.len();
    let dash: [u8; 2] = [45u8, 32u8];
    assert(dash@ =~= dash_space());
    let mut starts: Vec<usize> = Vec::new();
    let mut ls: usize = 0;
    while ls < n
        invariant
            ls <= n,
            n == block@.len(),
            dash@ == dash_space(),
            entry_starts(block@, 0) == starts@.map_values(|x: usize| x as int) + entry_starts(
                block@,
                ls as int,
            ),
        decreases n - ls,
    {
        proof {
            lemma_line_bounds(block@, ls as int);
        }
        let e = next_line_start(block, ls);
        let t = line_text_end(block, ls, e);
        proof {
            lemma_skip_space_to(block@, ls as int, t as int);
        }
        let ghost before = starts@;
        if t > ls && (block[ls] == 32u8 || block[ls] == 9u8) {
            let a = skip_whitespace_to(block, ls, t);
            if starts_with_at(block, a, t, dash.as_slice()) {
                starts.push(a + 2);
            }
        }
        proof {
            let m = |x: usize| x as int;
            assert(entry_starts(block@, ls as int) == (starts@.map_values(m).subrange(
                before.len() as int,
                starts@.len() as int,
            )) + entry_starts(block@, e as int));
            assert(starts@.map_values(m) =~= before.map_values(m) + starts@.map_values(m).subrange(
                before.len() as int,
                starts@.len() as int,
            ));
        }
        ls = e;
    }
    assert(entry_starts(block@, 0) =~= starts@.map_values(|x: usize| x as int));
    proof {
        lemma_entry_starts(block@, 0);
        let st = entry_starts(block@, 0);
        assert forall|i: int| 0 <= i < starts@.len() implies 0 < #[trigger] starts@[i] <= n by {
            assert(st[i] == starts@[i] as int);
        }
        assert forall|i: int, j: int| 0 <= i < j < starts@.len() implies #[trigger] starts@[i]
            < #[trigger] starts@[j] by {
            assert(st[i] == starts@[i] as int);
            assert(st[j] == starts@[j] as int);
        }
    }
    let mut entries: Vec<&[u8]> = Vec::new();
    let mut k: usize = 0;
    while k < starts.len()
        invariant
            0 <= k <= starts@.len(),
            n == block@.len(),
            entry_starts(block@, 0) == starts@.map_values(|x: usize| x as int),
            forall|i: int|
                0 <= i < starts@.len() ==> 0 < #[trigger] starts@[i] <= n,
            forall|i: int, j: int|
                0 <= i < j < starts@.len() ==> #[trigger] starts@[i] < #[trigger] starts@[j],
            entries@.len() == k,
            forall|i: int| 0 <= i < k ==> (#[trigger] entries@[i])@ == spec_list_entries(block@)[i],
        decreases starts@.len() - k,
    {
        proof {
            assert(entry_starts(block@, 0)[k as int] == starts@[k as int] as int);
            if k + 1 < starts@.len() {
                assert(entry_starts(block@, 0)[k + 1] == starts@[k + 1] as int);
            }
            assert forall|i: int| 0 <= i < starts@.len() implies 0 < #[trigger] starts@[i] <= n by {
                assert(entry_starts(block@, 0)[i] == starts@[i] as int);
            }
        }
        let end = if k + 1 < starts.len() {
            starts[k + 1]
        } else {
            n
        };
        entries.push(vstd::slice::slice_subrange(block, starts[k], end));
        k = k + 1;
    }
    entries
}

/// `tbd-version`.
pub open spec fn tbd_version_key() -> Seq<u8> {
    seq![116u8, 98, 100, 45, 118, 101, 114, 115, 105, 111, 110]
}

/// `targets`.
pub open spec fn targets_key() -> Seq<u8> {
    seq![116u8, 97, 114, 103, 101, 116, 115]
}

/// `install-name`.
pub open spec fn install_name_key() -> Seq<u8> {
    seq![105u8, 110, 115, 116, 97, 108, 108, 45, 110, 97, 109, 101]
}

/// `current-version`.
pub open spec fn current_version_key() -> Seq<u8> {
    seq![99u8, 117, 114, 114, 101, 110, 116, 45, 118, 101, 114, 115, 105, 111, 110]
}

/// `compatibility-version`.
pub open spec fn compatibility_version_key() -> Seq<u8> {
    seq![99u8, 111, 109, 112, 97, 116, 105, 98, 105, 108, 105, 116, 121, 45, 118, 101, 114, 115, 105, 111, 110]
}

/// `parent-umbrella`.
pub open spec fn parent_umbrella_key() -> Seq<u8> {
    seq![112u8, 97, 114, 101, 110, 116, 45, 117, 109, 98, 114, 101, 108, 108, 97]
}

/// `reexported-libraries`.
pub open spec fn reexported_libraries_key() -> Seq<u8> {
    seq![114u8, 101, 101, 120, 112, 111, 114, 116, 101, 100, 45, 108, 105, 98, 114, 97, 114, 105, 101, 115]
}

/// `exports`.
pub open spec fn exports_key() -> Seq<u8> {
    seq![101u8, 120, 112, 111, 114, 116, 115]
}

/// `reexports`.
pub open spec fn reexports_key() -> Seq<u8> {
    seq![114u8, 101, 101, 120, 112, 111, 114, 116, 115]
}

/// `symbols`.
pub open spec fn symbols_key() -> Seq<u8> {
    seq![115u8, 121, 109, 98, 111, 108, 115]
}

/// `weak-symbols`.
pub open spec fn weak_symbols_key() -> Seq<u8> {
    seq![119u8, 101, 97, 107, 45, 115, 121, 109, 98, 111, 108, 115]
}

/// `objc-classes`.
pub open spec fn objc_classes_key() -> Seq<u8> {
    seq![111u8, 98, 106, 99, 45, 99, 108, 97, 115, 115, 101, 115]
}

/// `libraries`.
pub open spec fn libraries_key() -> Seq<u8> {
    seq![108u8, 105, 98, 114, 97, 114, 105, 101, 115]
}

/// `umbrella`.
pub open spec fn umbrella_key() -> Seq<u8> {
    seq![117u8, 109, 98, 114, 101, 108, 108, 97]
}

/// `arm64e-macos`.
pub open spec fn arm64_lib_arch() -> Seq<u8> {
    seq![97u8, 114, 109, 54, 52, 101, 45, 109, 97, 99, 111, 115]
}


/// The line break and marker that start a new YAML document.
pub open spec fn doc_marker() -> Seq<u8> {
    seq![10u8, 45, 45, 45]
}

/// The non-blank documents from the one starting at `doc_start`, scanning for `\n---` from
/// `pos`: a document ends just after the line feed of the marker that follows it.
pub open spec fn split_from(input: Seq<u8>, doc_start: int, pos: int) -> Seq<Seq<u8>>
    decreases input.len() - pos,
{
    if pos < doc_start || doc_start < 0 || pos + 4 > input.len() {
        let d = input.subrange(doc_start, input.len() as int);
        if has_non_space(d) {
            seq![d]
        } else {
            Seq::empty()
        }
    } else if input.subrange(pos, pos + 4) == doc_marker() {
        let d = input.subrange(doc_start, pos + 1);
        (if has_non_space(d) {
            seq![d]
        } else {
            Seq::empty()
        }) + split_from(input, pos + 1, pos + 4)
    } else {
        split_from(input, doc_start, pos + 1)
    }
}

/// The non-blank YAML documents of a multi-document file.
pub open spec fn spec_split_documents(input: Seq<u8>) -> Seq<Seq<u8>> {
    split_from(input, 0, 0)
}

/// Whether `[a, b)` holds anything but whitespace.
fn non_blank(s: &[u8], a: usize, b: usize) -> (r: bool)
    requires
        a <= b <= s@.len(),
    ensures
        r == has_non_space(s@.subrange(a as int, b as int)),
{
    proof {
        lemma_skip_space_shift(s@, a as int, b as int, a as int);
    }
    skip_whitespace_to(s, a, b) < b
}

/// Splits a multi-document TBD file into its non-blank documents.
pub fn split_tapi_documents(input: &[u8]) -> (r: Vec<&[u8]>)
    ensures
        r@.len() == spec_split_documents(input@).len(),
        forall|k: int| 0 <= k < r@.len() ==> (#[trigger] r@[k])@ == spec_split_documents(input@)[k],
{
    let n = input.len();
    let marker: [u8; 4] = [10u8, 45, 45, 45];
    assert(marker@ =~= doc_marker());
    let mut documents: Vec<&[u8]> = Vec::new();
    let ghost mut acc: Seq<Seq<u8>> = Seq::empty();
    let mut doc_start: usize = 0;
    let mut pos: usize = 0;
    while pos < n && n - pos >= 4
        invariant
            doc_start <= pos,
            pos <= n,
            n == input@.len(),
            marker@ == doc_marker(),
            spec_split_documents(input@) == acc + split_from(input@, doc_start as int, pos as int),
            documents@.len() == acc.len(),
            forall|k: int| 0 <= k < acc.len() ==> (#[trigger] documents@[k])@ == acc[k],
        decreases n - pos,
    {
        if starts_with_at(input, pos, n, marker.as_slice()) {
            let ghost d = input@.subrange(doc_start as int, pos + 1);
            if non_blank(input, doc_start, pos + 1) {
                documents.push(vstd::slice::slice_subrange(input, doc_start, pos + 1));
                proof {
                    assert(acc + (seq![d] + split_from(input@, pos + 1, pos + 4)) =~= acc.push(d)
                        + split_from(input@, pos + 1, pos + 4));
                    acc = acc.push(d);
                }
            } else {
                assert(acc + (Seq::<Seq<u8>>::empty() + split_from(input@, pos + 1, pos + 4)) =~= acc
                    + split_from(input@, pos + 1, pos + 4));
            }
            doc_start = pos + 1;
            pos = pos + 4;
        } else {
            pos = pos + 1;
        }
    }
    let ghost d = input@.subrange(doc_start as int, n as int);
    if non_blank(input, doc_start, n) {
        documents.push(vstd::slice::slice_subrange(input, doc_start, n));
        proof {
            acc = acc.push(d);
        }
    } else {
        assert(acc + Seq::<Seq<u8>>::empty() =~= acc);
    }
    documents
}

/// One `exports` or `reexports` entry: the targets it applies to and the symbols, weak symbols
/// and Objective-C classes it lists.
#[derive(Debug)]
pub struct Exports {
    pub targets: Vec<Vec<u8>>,
    pub symbols: Vec<Vec<u8>>,
    pub weak_symbols: Vec<Vec<u8>>,
    pub objc_classes: Vec<Vec<u8>>,
}

/// An `Exports` entry as values.
pub struct ExportsView {
    pub targets: Seq<Seq<u8>>,
    pub symbols: Seq<Seq<u8>>,
    pub weak_symbols: Seq<Seq<u8>>,
    pub objc_classes: Seq<Seq<u8>>,
}

impl View for Exports {
    type V = ExportsView;

    open spec fn view(&self) -> ExportsView {
        ExportsView {
            targets: strings_view(self.targets@),
            symbols: strings_view(self.symbols@),
            weak_symbols: strings_view(self.weak_symbols@),
            objc_classes: strings_view(self.objc_classes@),
        }
    }
}

/// One `parent-umbrella` entry.
#[derive(Debug)]
pub struct ParentUmbrella {
    pub targets: Vec<Vec<u8>>,
    pub umbrella: Vec<u8>,
}

impl View for ParentUmbrella {
    type V = (Seq<Seq<u8>>, Seq<u8>);

    open spec fn view(&self) -> (Seq<Seq<u8>>, Seq<u8>) {
        (strings_view(self.targets@), self.umbrella@)
    }
}

/// One `reexported-libraries` entry.
#[derive(Debug)]
pub struct ReexportedLibraries {
    pub targets: Vec<Vec<u8>>,
    pub libraries: Vec<Vec<u8>>,
}

impl View for ReexportedLibraries {
    type V = (Seq<Seq<u8>>, Seq<Seq<u8>>);

    open spec fn view(&self) -> (Seq<Seq<u8>>, Seq<Seq<u8>>) {
        (strings_view(self.targets@), strings_view(self.libraries@))
    }
}

/// The views of a list of entries.
pub open spec fn views_of<T: View>(v: Seq<T>) -> Seq<T::V> {
    v.map_values(|x: T| x@)
}

/// The exported entries of a block's list from entry `k` on: entries that do not apply to
/// `arm64e-macos` are left out; every kept entry must have flow-sequence targets and lists.
pub open spec fn exports_from(entries: Seq<Seq<u8>>, k: int) -> Option<Seq<ExportsView>>
    decreases entries.len() - k,
{
    if k < 0 || k >= entries.len() {
        Some(Seq::empty())
    } else {
        let entry = entries[k];
        match spec_entry_value(entry, targets_key()) {
            None => None,
            Some(tv) => match spec_flow_sequence(tv) {
                None => None,
                Some(targets) => if !targets.contains(arm64_lib_arch()) {
                    exports_from(entries, k + 1)
                } else {
                    match (
                        spec_optional_flow_sequence(spec_entry_value(entry, symbols_key())),
                        spec_optional_flow_sequence(spec_entry_value(entry, weak_symbols_key())),
                        spec_optional_flow_sequence(spec_entry_value(entry, objc_classes_key())),
                        exports_from(entries, k + 1),
                    ) {
                        (Some(symbols), Some(weak_symbols), Some(objc_classes), Some(rest)) => Some(
                            seq![ExportsView { targets, symbols, weak_symbols, objc_classes }] + rest,
                        ),
                        _ => None,
                    }
                },
            },
        }
    }
}

/// The `arm64e-macos` entries of an `exports` or `reexports` block.
pub open spec fn spec_parse_exports(block: Seq<u8>) -> Option<Seq<ExportsView>> {
    exports_from(spec_list_entries(block), 0)
}

/// Whether a list of targets names `arm64e-macos`.
pub(crate) fn names_arm64(targets: &Vec<Vec<u8>>) -> (r: bool)
    ensures
        r == strings_view(targets@).contains(arm64_lib_arch()),
{
    let arch: [u8; 12] = [97u8, 114, 109, 54, 52, 101, 45, 109, 97, 99, 111, 115];
    assert(arch@ =~= arm64_lib_arch());
    let mut i: usize = 0;
    while i < targets.len()
        invariant
            0 <= i <= targets@.len(),
            arch@ == arm64_lib_arch(),
            forall|j: int| 0 <= j < i ==> targets@[j]@ != arm64_lib_arch(),
        decreases targets@.len() - i,
    {
        if crate::segment::bytes_equal(targets[i].as_slice(), arch.as_slice()) {
            assert(strings_view(targets@)[i as int] == arm64_lib_arch());
            return true;
        }
        i = i + 1;
    }
    proof {
        if strings_view(targets@).contains(arm64_lib_arch()) {
            let j = choose|j: int| 0 <= j < strings_view(targets@).len() && strings_view(targets@)[j] == arm64_lib_arch();
            assert(targets@[j]@ == arm64_lib_arch());
        }
    }
    false
}

/// Reads the optional flow-sequence field `key` of an entry.
fn entry_list(entry: &[u8], key: &[u8]) -> (r: Option<Vec<Vec<u8>>>)
    ensures
        match spec_optional_flow_sequence(spec_entry_value(entry@, key@)) {
            None => r is None,
            Some(items) => r matches Some(x) && strings_view(x@) == items,
        },
{
    optional_flow_sequence(entry_value(entry, key))
}

/// Reads the `arm64e-macos` entries of an `exports` or `reexports` block. Entries for other
/// targets are skipped without reading their (much larger) symbol lists.
pub fn parse_standard_exports(block: &[u8]) -> (r: Option<Vec<Exports>>)
    ensures
        match spec_parse_exports(block@) {
            None => r is None,
            Some(v) => r matches Some(x) && views_of(x@) == v,
        },
{
    let entries = standard_list_entries(block);
    let ghost es = spec_list_entries(block@);
    let targets_k: [u8; 7] = [116u8, 97, 114, 103, 101, 116, 115];
    let symbols_k: [u8; 7] = [115u8, 121, 109, 98, 111, 108, 115];
    let weak_k: [u8; 12] = [119u8, 101, 97, 107, 45, 115, 121, 109, 98, 111, 108, 115];
    let objc_k: [u8; 12] = [111u8, 98, 106, 99, 45, 99, 108, 97, 115, 115, 101, 115];
    assert(targets_k@ =~= targets_key());
    assert(symbols_k@ =~= symbols_key());
    assert(weak_k@ =~= weak_symbols_key());
    assert(objc_k@ =~= objc_classes_key());
    let mut exports: Vec<Exports> = Vec::new();
    let ghost mut acc: Seq<ExportsView> = Seq::empty();
    let mut k: usize = 0;
    while k < entries.len()
        invariant
            0 <= k <= entries@.len(),
            entries@.len() == es.len(),
            forall|i: int| 0 <= i < entries@.len() ==> (#[trigger] entries@[i])@ == es[i],
            targets_k@ == targets_key(),
            symbols_k@ == symbols_key(),
            weak_k@ == weak_symbols_key(),
            objc_k@ == objc_classes_key(),
            es == spec_list_entries(block@),
            spec_parse_exports(block@) == match exports_from(es, k as int) {
                Some(rest) => Some(acc + rest),
                None => None,
            },
            views_of(exports@) == acc,
        decreases entries@.len() - k,
    {
        let entry = entries[k];
        let tv = entry_value(entry, targets_k.as_slice())?;
        let targets = flow_sequence(tv)?;
        if names_arm64(&targets) {
            let symbols = entry_list(entry, symbols_k.as_slice())?;
            let weak_symbols = entry_list(entry, weak_k.as_slice())?;
            let objc_classes = entry_list(entry, objc_k.as_slice())?;
            let item = Exports { targets, symbols, weak_symbols, objc_classes };
            let ghost before = exports@;
            exports.push(item);
            proof {
                assert(views_of(exports@) =~= views_of(before).push(item@));
                match exports_from(es, k + 1) {
                    Some(rest) => {
                        assert(acc + (seq![item@] + rest) =~= acc.push(item@) + rest);
                    },
                    None => {},
                }
                acc = acc.push(item@);
            }
        }
        k = k + 1;
    }
    assert(acc + Seq::<ExportsView>::empty() =~= acc);
    Some(exports)
}

/// The `parent-umbrella` entries from entry `k` on: each needs flow-sequence targets and a
/// scalar umbrella.
pub open spec fn umbrellas_from(entries: Seq<Seq<u8>>, k: int) -> Option<
    Seq<(Seq<Seq<u8>>, Seq<u8>)>,
>
    decreases entries.len() - k,
{
    if k < 0 || k >= entries.len() {
        Some(Seq::empty())
    } else {
        let entry = entries[k];
        let targets = match spec_entry_value(entry, targets_key()) {
            Some(v) => spec_flow_sequence(v),
            None => None,
        };
        let umbrella = match spec_entry_value(entry, umbrella_key()) {
            Some(v) => spec_scalar_value(v),
            None => None,
        };
        match (targets, umbrella, umbrellas_from(entries, k + 1)) {
            (Some(t), Some(u), Some(rest)) => Some(seq![(t, u)] + rest),
            _ => None,
        }
    }
}

/// The `reexported-libraries` entries from entry `k` on: each needs flow-sequence targets and
/// libraries.
pub open spec fn reexports_from(entries: Seq<Seq<u8>>, k: int) -> Option<
    Seq<(Seq<Seq<u8>>, Seq<Seq<u8>>)>,
>
    decreases entries.len() - k,
{
    if k < 0 || k >= entries.len() {
        Some(Seq::empty())
    } else {
        let entry = entries[k];
        let targets = match spec_entry_value(entry, targets_key()) {
            Some(v) => spec_flow_sequence(v),
            None => None,
        };
        let libraries = match spec_entry_value(entry, libraries_key()) {
            Some(v) => spec_flow_sequence(v),
            None => None,
        };
        match (targets, libraries, reexports_from(entries, k + 1)) {
            (Some(t), Some(l), Some(rest)) => Some(seq![(t, l)] + rest),
            _ => None,
        }
    }
}

/// The entries of a `parent-umbrella` block.
pub open spec fn spec_parse_parent_umbrellas(block: Seq<u8>) -> Option<Seq<(Seq<Seq<u8>>, Seq<u8>)>> {
    umbrellas_from(spec_list_entries(block), 0)
}

/// The entries of a `reexported-libraries` block.
pub open spec fn spec_parse_reexported_libraries(block: Seq<u8>) -> Option<
    Seq<(Seq<Seq<u8>>, Seq<Seq<u8>>)>,
> {
    reexports_from(spec_list_entries(block), 0)
}

/// Reads the field `key` of an entry as a flow sequence.
fn entry_flow(entry: &[u8], key: &[u8]) -> (r: Option<Vec<Vec<u8>>>)
    ensures
        match (match spec_entry_value(entry@, key@) {
            Some(v) => spec_flow_sequence(v),
            None => None,
        }) {
            None => r is None,
            Some(items) => r matches Some(x) && strings_view(x@) == items,
        },
{
    let v = entry_value(entry, key)?;
    flow_sequence(v)
}

/// Reads the entries of a `parent-umbrella` block.
pub fn parse_standard_parent_umbrellas(block: &[u8]) -> (r: Option<Vec<ParentUmbrella>>)
    ensures
        match spec_parse_parent_umbrellas(block@) {
            None => r is None,
            Some(v) => r matches Some(x) && views_of(x@) == v,
        },
{
    let entries = standard_list_entries(block);
    let ghost es = spec_list_entries(block@);
    let targets_k: [u8; 7] = [116u8, 97, 114, 103, 101, 116, 115];
    let umbrella_k: [u8; 8] = [117u8, 109, 98, 114, 101, 108, 108, 97];
    assert(targets_k@ =~= targets_key());
    assert(umbrella_k@ =~= umbrella_key());
    let mut out: Vec<ParentUmbrella> = Vec::new();
    let ghost mut acc: Seq<(Seq<Seq<u8>>, Seq<u8>)> = Seq::empty();
    let mut k: usize = 0;
    while k < entries.len()
        invariant
            0 <= k <= entries@.len(),
            entries@.len() == es.len(),
            forall|i: int| 0 <= i < entries@.len() ==> (#[trigger] entries@[i])@ == es[i],
            targets_k@ == targets_key(),
            umbrella_k@ == umbrella_key(),
            es == spec_list_entries(block@),
            spec_parse_parent_umbrellas(block@) == match umbrellas_from(es, k as int) {
                Some(rest) => Some(acc + rest),
                None => None,
            },
            views_of(out@) == acc,
        decreases entries@.len() - k,
    {
        let entry = entries[k];
        let targets = entry_flow(entry, targets_k.as_slice())?;
        let uv = entry_value(entry, umbrella_k.as_slice())?;
        let umbrella = vstd::slice::slice_to_vec(scalar_value(uv)?);
        let item = ParentUmbrella { targets, umbrella };
        let ghost before = out@;
        out.push(item);
        proof {
            assert(views_of(out@) =~= views_of(before).push(item@));
            match umbrellas_from(es, k + 1) {
                Some(rest) => {
                    assert(acc + (seq![item@] + rest) =~= acc.push(item@) + rest);
                },
                None => {},
            }
            acc = acc.push(item@);
        }
        k = k + 1;
    }
    assert(acc + Seq::<(Seq<Seq<u8>>, Seq<u8>)>::empty() =~= acc);
    Some(out)
}

/// Reads the entries of a `reexported-libraries` block.
pub fn parse_standard_reexported_libraries(block: &[u8]) -> (r: Option<Vec<ReexportedLibraries>>)
    ensures
        match spec_parse_reexported_libraries(block@) {
            None => r is None,
            Some(v) => r matches Some(x) && views_of(x@) == v,
        },
{
    let entries = standard_list_entries(block);
    let ghost es = spec_list_entries(block@);
    let targets_k: [u8; 7] = [116u8, 97, 114, 103, 101, 116, 115];
    let libraries_k: [u8; 9] = [108u8, 105, 98, 114, 97, 114, 105, 101, 115];
    assert(targets_k@ =~= targets_key());
    assert(libraries_k@ =~= libraries_key());
    let mut out: Vec<ReexportedLibraries> = Vec::new();
    let ghost mut acc: Seq<(Seq<Seq<u8>>, Seq<Seq<u8>>)> = Seq::empty();
    let mut k: usize = 0;
    while k < entries.len()
        invariant
            0 <= k <= entries@.len(),
            entries@.len() == es.len(),
            forall|i: int| 0 <= i < entries@.len() ==> (#[trigger] entries@[i])@ == es[i],
            targets_k@ == targets_key(),
            libraries_k@ == libraries_key(),
            es == spec_list_entries(block@),
            spec_parse_reexported_libraries(block@) == match reexports_from(es, k as int) {
                Some(rest) => Some(acc + rest),
                None => None,
            },
            views_of(out@) == acc,
        decreases entries@.len() - k,
    {
        let entry = entries[k];
        let targets = entry_flow(entry, targets_k.as_slice())?;
        let libraries = entry_flow(entry, libraries_k.as_slice())?;
        let item = ReexportedLibraries { targets, libraries };
        let ghost before = out@;
        out.push(item);
        proof {
            assert(views_of(out@) =~= views_of(before).push(item@));
            match reexports_from(es, k + 1) {
                Some(rest) => {
                    assert(acc + (seq![item@] + rest) =~= acc.push(item@) + rest);
                },
                None => {},
            }
            acc = acc.push(item@);
        }
        k = k + 1;
    }
    assert(acc + Seq::<(Seq<Seq<u8>>, Seq<Seq<u8>>)>::empty() =~= acc);
    Some(out)
}

/// One TBD document: the library's identity, versions, umbrella, reexported libraries and
/// exports.
#[derive(Debug)]
pub struct TextBasedDefinition {
    pub tbd_version: u32,
    pub targets: Vec<Vec<u8>>,
    pub install_name: Vec<u8>,
    pub current_version: Vec<u8>,
    pub compatibility_version: Vec<u8>,
    pub parent_umbrella: Vec<ParentUmbrella>,
    pub reexported_libraries: Vec<ReexportedLibraries>,
    pub exports: Vec<Exports>,
    pub reexports: Vec<Exports>,
}

/// A TBD document as values.
pub struct DefinitionView {
    pub tbd_version: u32,
    pub targets: Seq<Seq<u8>>,
    pub install_name: Seq<u8>,
    pub current_version: Seq<u8>,
    pub compatibility_version: Seq<u8>,
    pub parent_umbrella: Seq<(Seq<Seq<u8>>, Seq<u8>)>,
    pub reexported_libraries: Seq<(Seq<Seq<u8>>, Seq<Seq<u8>>)>,
    pub exports: Seq<ExportsView>,
    pub reexports: Seq<ExportsView>,
}

impl View for TextBasedDefinition {
    type V = DefinitionView;

    open spec fn view(&self) -> DefinitionView {
        DefinitionView {
            tbd_version: self.tbd_version,
            targets: strings_view(self.targets@),
            install_name: self.install_name@,
            current_version: self.current_version@,
            compatibility_version: self.compatibility_version@,
            parent_umbrella: views_of(self.parent_umbrella@),
            reexported_libraries: views_of(self.reexported_libraries@),
            exports: views_of(self.exports@),
            reexports: views_of(self.reexports@),
        }
    }
}

impl TextBasedDefinition {
    /// The `exports` entries followed by the `reexports` entries.
    pub fn all_exports(&self) -> (r: Vec<&Exports>)
        ensures
            r@.len() == self.exports@.len() + self.reexports@.len(),
            forall|i: int| 0 <= i < self.exports@.len() ==> *(#[trigger] r@[i]) == self.exports@[i],
            forall|i: int|
                self.exports@.len() <= i < r@.len() ==> *(#[trigger] r@[i]) == self.reexports@[i
                    - self.exports@.len()],
    {
        let mut all: Vec<&Exports> = Vec::new();
        let mut i: usize = 0;
        while i < self.exports.len()
            invariant
                0 <= i <= self.exports@.len(),
                all@.len() == i,
                forall|j: int| 0 <= j < i ==> *(#[trigger] all@[j]) == self.exports@[j],
            decreases self.exports@.len() - i,
        {
            all.push(&self.exports[i]);
            i = i + 1;
        }
        let mut k: usize = 0;
        while k < self.reexports.len()
            invariant
                0 <= k <= self.reexports@.len(),
                all@.len() == self.exports@.len() + k,
                forall|j: int| 0 <= j < self.exports@.len() ==> *(#[trigger] all@[j]) == self.exports@[j],
                forall|j: int|
                    self.exports@.len() <= j < all@.len() ==> *(#[trigger] all@[j]) == self.reexports@[j
                        - self.exports@.len()],
            decreases self.reexports@.len() - k,
        {
            all.push(&self.reexports[k]);
            k = k + 1;
        }
        all
    }
}

/// A block that may be absent: an absent block is empty.
pub open spec fn optional_block<T>(value: Option<Seq<u8>>, parse: spec_fn(Seq<u8>) -> Option<Seq<T>>) -> Option<Seq<T>> {
    match value {
        None => Some(Seq::empty()),
        Some(b) => parse(b),
    }
}

/// A scalar field that may be absent or unreadable: either way it is empty.
pub open spec fn scalar_or_empty(value: Option<Seq<u8>>) -> Seq<u8> {
    match value {
        Some(v) => match spec_scalar_value(v) {
            Some(x) => x,
            None => Seq::empty(),
        },
        None => Seq::empty(),
    }
}

/// One document in the regular spelling: a numeric `tbd-version`, flow-sequence `targets`, a
/// scalar `install-name`, optional scalar versions and optional lists.
pub open spec fn spec_parse_document(doc: Seq<u8>) -> Option<DefinitionView> {
    let version = match spec_top_level_value(doc, tbd_version_key()) {
        Some(v) => match spec_scalar_value(v) {
            Some(x) => crate::load_commands::spec_parse_decimal(x, u32::MAX as u64),
            None => None,
        },
        None => None,
    };
    let targets = match spec_top_level_value(doc, targets_key()) {
        Some(v) => spec_flow_sequence(v),
        None => None,
    };
    let install_name = match spec_top_level_value(doc, install_name_key()) {
        Some(v) => spec_scalar_value(v),
        None => None,
    };
    let umbrellas = optional_block(
        spec_top_level_value(doc, parent_umbrella_key()),
        |b: Seq<u8>| spec_parse_parent_umbrellas(b),
    );
    let reexported = optional_block(
        spec_top_level_value(doc, reexported_libraries_key()),
        |b: Seq<u8>| spec_parse_reexported_libraries(b),
    );
    let exports = optional_block(
        spec_top_level_value(doc, exports_key()),
        |b: Seq<u8>| spec_parse_exports(b),
    );
    let reexports = optional_block(
        spec_top_level_value(doc, reexports_key()),
        |b: Seq<u8>| spec_parse_exports(b),
    );
    match (version, targets, install_name, umbrellas, reexported, exports, reexports) {
        (Some(v), Some(t), Some(i), Some(u), Some(r), Some(e), Some(x)) => Some(
            DefinitionView {
                tbd_version: v as u32,
                targets: t,
                install_name: i,
                current_version: scalar_or_empty(spec_top_level_value(doc, current_version_key())),
                compatibility_version: scalar_or_empty(
                    spec_top_level_value(doc, compatibility_version_key()),
                ),
                parent_umbrella: u,
                reexported_libraries: r,
                exports: e,
                reexports: x,
            },
        ),
        _ => None,
    }
}

/// Reads a scalar field that may be absent or unreadable as bytes, empty in either case.
fn scalar_field(doc: &[u8], key: &[u8]) -> (r: Vec<u8>)
    ensures
        r@ == scalar_or_empty(spec_top_level_value(doc@, key@)),
{
    match top_level_value(doc, key) {
        Some(v) => match scalar_value(v) {
            Some(x) => vstd::slice::slice_to_vec(x),
            None => Vec::new(),
        },
        None => Vec::new(),
    }
}

/// Reads one document in the regular TAPI-v4 spelling; `None` when any field uses another
/// spelling.
pub fn parse_standard_tapi_document(document: &[u8]) -> (r: Option<TextBasedDefinition>)
    ensures
        match spec_parse_document(document@) {
            None => r is None,
            Some(v) => r matches Some(d) && d@ == v,
        },
{
    let version_k: [u8; 11] = [116u8, 98, 100, 45, 118, 101, 114, 115, 105, 111, 110];
    let targets_k: [u8; 7] = [116u8, 97, 114, 103, 101, 116, 115];
    let install_k: [u8; 12] = [105u8, 110, 115, 116, 97, 108, 108, 45, 110, 97, 109, 101];
    let current_k: [u8; 15] = [99u8, 117, 114, 114, 101, 110, 116, 45, 118, 101, 114, 115, 105, 111, 110];
    let compat_k: [u8; 21] = [99u8, 111, 109, 112, 97, 116, 105, 98, 105, 108, 105, 116, 121, 45, 118, 101, 114, 115, 105, 111, 110];
    let parent_k: [u8; 15] = [112u8, 97, 114, 101, 110, 116, 45, 117, 109, 98, 114, 101, 108, 108, 97];
    let reexported_k: [u8; 20] = [114u8, 101, 101, 120, 112, 111, 114, 116, 101, 100, 45, 108, 105, 98, 114, 97, 114, 105, 101, 115];
    let exports_k: [u8; 7] = [101u8, 120, 112, 111, 114, 116, 115];
    let reexports_k: [u8; 9] = [114u8, 101, 101, 120, 112, 111, 114, 116, 115];
    assert(version_k@ =~= tbd_version_key());
    assert(targets_k@ =~= targets_key());
    assert(install_k@ =~= install_name_key());
    assert(current_k@ =~= current_version_key());
    assert(compat_k@ =~= compatibility_version_key());
    assert(parent_k@ =~= parent_umbrella_key());
    assert(reexported_k@ =~= reexported_libraries_key());
    assert(exports_k@ =~= exports_key());
    assert(reexports_k@ =~= reexports_key());
    let version_text = scalar_value(top_level_value(document, version_k.as_slice())?)?;
    let tbd_version = crate::load_commands::parse_decimal(version_text, 0xffff_ffff)? as u32;
    let targets = flow_sequence(top_level_value(document, targets_k.as_slice())?)?;
    let install_name = vstd::slice::slice_to_vec(
        scalar_value(top_level_value(document, install_k.as_slice())?)?,
    );
    let current_version = scalar_field(document, current_k.as_slice());
    let compatibility_version = scalar_field(document, compat_k.as_slice());
    let parent_umbrella = match top_level_value(document, parent_k.as_slice()) {
        None => Vec::new(),
        Some(b) => parse_standard_parent_umbrellas(b)?,
    };
    let reexported_libraries = match top_level_value(document, reexported_k.as_slice()) {
        None => Vec::new(),
        Some(b) => parse_standard_reexported_libraries(b)?,
    };
    let exports = match top_level_value(document, exports_k.as_slice()) {
        None => Vec::new(),
        Some(b) => parse_standard_exports(b)?,
    };
    let reexports = match top_level_value(document, reexports_k.as_slice()) {
        None => Vec::new(),
        Some(b) => parse_standard_exports(b)?,
    };
    let d = TextBasedDefinition {
        tbd_version,
        targets,
        install_name,
        current_version,
        compatibility_version,
        parent_umbrella,
        reexported_libraries,
        exports,
        reexports,
    };
    proof {
        assert(views_of(d.parent_umbrella@) =~= optional_block(
            spec_top_level_value(document@, parent_umbrella_key()),
            |b: Seq<u8>| spec_parse_parent_umbrellas(b),
        )->Some_0);
        assert(views_of(d.reexported_libraries@) =~= optional_block(
            spec_top_level_value(document@, reexported_libraries_key()),
            |b: Seq<u8>| spec_parse_reexported_libraries(b),
        )->Some_0);
        assert(views_of(d.exports@) =~= optional_block(
            spec_top_level_value(document@, exports_key()),
            |b: Seq<u8>| spec_parse_exports(b),
        )->Some_0);
        assert(views_of(d.reexports@) =~= optional_block(
            spec_top_level_value(document@, reexports_key()),
            |b: Seq<u8>| spec_parse_exports(b),
        )->Some_0);
    }
    Some(d)
}

/// The documents from `k` on, each in the regular spelling.
pub open spec fn documents_from(docs: Seq<Seq<u8>>, k: int) -> Option<Seq<DefinitionView>>
    decreases docs.len() - k,
{
    if k < 0 || k >= docs.len() {
        Some(Seq::empty())
    } else {
        match (spec_parse_document(docs[k]), documents_from(docs, k + 1)) {
            (Some(d), Some(rest)) => Some(seq![d] + rest),
            _ => None,
        }
    }
}

/// Every document of a TBD file in the regular TAPI-v4 spelling.
pub open spec fn spec_parse_standard_tapi_v4(input: Seq<u8>) -> Option<Seq<DefinitionView>> {
    documents_from(spec_split_documents(input), 0)
}

/// Reads every document of a TBD file in the regular TAPI-v4 spelling Xcode SDKs use; `None`
/// when any document uses another spelling, for a complete YAML reader to handle.
pub fn parse_standard_tapi_v4(input: &[u8]) -> (r: Option<Vec<TextBasedDefinition>>)
    ensures
        match spec_parse_standard_tapi_v4(input@) {
            None => r is None,
            Some(v) => r matches Some(x) && views_of(x@) == v,
        },
{
    let docs = split_tapi_documents(input);
    let ghost ds = spec_split_documents(input@);
    let mut out: Vec<TextBasedDefinition> = Vec::new();
    let ghost mut acc: Seq<DefinitionView> = Seq::empty();
    let mut k: usize = 0;
    while k < docs.len()
        invariant
            0 <= k <= docs@.len(),
            docs@.len() == ds.len(),
            forall|i: int| 0 <= i < docs@.len() ==> (#[trigger] docs@[i])@ == ds[i],
            ds == spec_split_documents(input@),
            spec_parse_standard_tapi_v4(input@) == match documents_from(ds, k as int) {
                Some(rest) => Some(acc + rest),
                None => None,
            },
            views_of(out@) == acc,
        decreases docs@.len() - k,
    {
        let d = parse_standard_tapi_document(docs[k])?;
        let ghost before = out@;
        out.push(d);
        proof {
            assert(views_of(out@) =~= views_of(before).push(d@));
            match documents_from(ds, k + 1) {
                Some(rest) => {
                    assert(acc + (seq![d@] + rest) =~= acc.push(d@) + rest);
                },
                None => {},
            }
            acc = acc.push(d@);
        }
        k = k + 1;
    }
    assert(acc + Seq::<DefinitionView>::empty() =~= acc);
    Some(out)
}

} // verus!
