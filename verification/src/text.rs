//! Byte-level scanning of UTF-8 text: finding bytes, whitespace and line boundaries.
use vstd::prelude::*;

verus! {

/// The first position at or after `from` that holds `b`.
pub open spec fn find_from(s: Seq<u8>, from: int, b: u8) -> Option<int>
    decreases s.len() - from,
{
    if from < 0 || from >= s.len() {
        None
    } else if s[from] == b {
        Some(from)
    } else {
        find_from(s, from + 1, b)
    }
}

/// A found position holds the byte, lies in range, and no earlier position from `from` does.
pub proof fn lemma_find_from(s: Seq<u8>, from: int, b: u8)
    requires
        0 <= from,
    ensures
        find_from(s, from, b) matches Some(i) ==> from <= i < s.len() && s[i] == b && forall|j: int|
            from <= j < i ==> s[j] != b,
        find_from(s, from, b) is None ==> forall|j: int| from <= j < s.len() ==> s[j] != b,
    decreases s.len() - from,
{
    if from < s.len() && s[from] != b {
        lemma_find_from(s, from + 1, b);
    }
}

/// The first position at or after `from` that holds `b`.
pub fn find_byte(s: &[u8], from: usize, b: u8) -> (r: Option<usize>)
    ensures
        match r {
            Some(i) => find_from(s@, from as int, b) == Some(i as int),
            None => find_from(s@, from as int, b) is None,
        },
{
    let mut i = from;
    while i < s.len()
        invariant
            from <= i,
            find_from(s@, from as int, b) == find_from(s@, i as int, b),
        decreases s@.len() - i,
    {
        if s[i] == b {
            return Some(i);
        }
        i = i + 1;
    }
    None
}

/// The ASCII characters that `char::is_whitespace` accepts: space, tab, line feed, vertical
/// tab, form feed and carriage return.
pub open spec fn is_space(b: u8) -> bool {
    b == 32 || (9 <= b <= 13)
}

/// Whitespace as `u8::is_ascii_whitespace` sees it: space, tab, line feed, form feed and
/// carriage return.
pub open spec fn is_ascii_ws(b: u8) -> bool {
    b == 32 || b == 9 || b == 10 || b == 12 || b == 13
}

/// Whether three bytes are the UTF-8 encoding of a three-byte Unicode `White_Space` character:
/// U+1680, U+2000 to U+200A, U+2028, U+2029, U+202F, U+205F or U+3000.
pub open spec fn is_wide_space(a: u8, b: u8, c: u8) -> bool {
    ||| a == 0xe1u8 && b == 0x9au8 && c == 0x80u8
    ||| a == 0xe2u8 && b == 0x80u8 && ((0x80u8 <= c && c <= 0x8au8) || c == 0xa8u8 || c == 0xa9u8 || c == 0xafu8)
    ||| a == 0xe2u8 && b == 0x81u8 && c == 0x9fu8
    ||| a == 0xe3u8 && b == 0x80u8 && c == 0x80u8
}

/// The length of the UTF-8 encoded Unicode `White_Space` character (what `char::is_whitespace`
/// and `str::trim` treat as blank) that starts at `i` and ends by `end`, or 0 when there is
/// none: the ASCII ones, U+0085 and U+00A0 (two bytes), and the three-byte ones.
pub open spec fn space_len(s: Seq<u8>, i: int, end: int) -> int {
    if i < 0 || i >= end || end > s.len() {
        0
    } else if is_space(s[i]) {
        1
    } else if i + 1 < end && s[i] == 0xc2u8 && (s[i + 1] == 0x85u8 || s[i + 1] == 0xa0u8) {
        2
    } else if i + 2 < end && is_wide_space(s[i], s[i + 1], s[i + 2]) {
        3
    } else {
        0
    }
}

/// The first position in `[from, end)` that does not start a whitespace character, or `end`:
/// where `str::trim_start` of the text `[from, end)` begins.
pub open spec fn skip_space_to(s: Seq<u8>, from: int, end: int) -> int
    decreases end - from,
{
    if from >= end {
        end
    } else if space_len(s, from, end) > 0 {
        skip_space_to(s, from + space_len(s, from, end), end)
    } else {
        from
    }
}

/// The first position at or after `from` that does not start a whitespace character, or the
/// end.
pub open spec fn skip_space(s: Seq<u8>, from: int) -> int {
    if from < 0 {
        0
    } else {
        skip_space_to(s, from, s.len() as int)
    }
}

/// Skipping whitespace moves forward within the range and stops at a non-whitespace start.
pub proof fn lemma_skip_space_to(s: Seq<u8>, from: int, end: int)
    requires
        0 <= from <= end <= s.len(),
    ensures
        from <= skip_space_to(s, from, end) <= end,
        skip_space_to(s, from, end) < end ==> space_len(s, skip_space_to(s, from, end), end) == 0,
    decreases end - from,
{
    if from < end && space_len(s, from, end) > 0 {
        lemma_skip_space_to(s, from + space_len(s, from, end), end);
    }
}

/// Skipping whitespace moves forward and stops at a non-whitespace start.
pub proof fn lemma_skip_space(s: Seq<u8>, from: int)
    requires
        0 <= from <= s.len(),
    ensures
        from <= skip_space(s, from) <= s.len(),
        skip_space(s, from) < s.len() ==> space_len(s, skip_space(s, from), s.len() as int) == 0,
{
    lemma_skip_space_to(s, from, s.len() as int);
}

/// Skipping within `[a, b)` of `s` is skipping within the same bytes taken out as a slice.
pub proof fn lemma_skip_space_shift(s: Seq<u8>, a: int, b: int, from: int)
    requires
        0 <= a <= from <= b <= s.len(),
    ensures
        skip_space_to(s.subrange(a, b), from - a, b - a) == skip_space_to(s, from, b) - a,
    decreases b - from,
{
    let d = s.subrange(a, b);
    assert(space_len(d, from - a, b - a) == space_len(s, from, b));
    if from < b && space_len(s, from, b) > 0 {
        lemma_skip_space_shift(s, a, b, from + space_len(s, from, b));
    }
}

/// The length of the whitespace character starting at `i` and ending by `end`, or 0.
pub fn space_len_at(s: &[u8], i: usize, end: usize) -> (r: usize)
    requires
        i < end <= s@.len(),
    ensures
        r == space_len(s@, i as int, end as int),
        r <= 3,
{
    let b = s[i];
    if b == 32 || (9 <= b && b <= 13) {
        1
    } else if end - i > 1 && b == 0xc2u8 && (s[i + 1] == 0x85u8 || s[i + 1] == 0xa0u8) {
        2
    } else if end - i > 2 {
        let b1 = s[i + 1];
        let c = s[i + 2];
        if (b == 0xe1u8 && b1 == 0x9au8 && c == 0x80u8) || (b == 0xe2u8 && b1 == 0x80u8 && ((0x80u8
            <= c && c <= 0x8au8) || c == 0xa8u8 || c == 0xa9u8 || c == 0xafu8)) || (b == 0xe2u8
            && b1 == 0x81u8 && c == 0x9fu8) || (b == 0xe3u8 && b1 == 0x80u8 && c == 0x80u8) {
            3
        } else {
            0
        }
    } else {
        0
    }
}

/// The first position in `[from, end)` that does not start a whitespace character, or `end`.
pub fn skip_whitespace_to(s: &[u8], from: usize, end: usize) -> (r: usize)
    requires
        from <= end <= s@.len(),
    ensures
        r == skip_space_to(s@, from as int, end as int),
        from <= r <= end,
{
    proof {
        lemma_skip_space_to(s@, from as int, end as int);
    }
    let mut i = from;
    while i < end
        invariant
            from <= i <= end <= s@.len(),
            skip_space_to(s@, from as int, end as int) == skip_space_to(s@, i as int, end as int),
        decreases end - i,
    {
        let n = space_len_at(s, i, end);
        if n == 0 {
            return i;
        }
        i = i + n;
    }
    i
}

/// The first position at or after `from` that does not start a whitespace character, or the
/// end.
pub fn skip_whitespace(s: &[u8], from: usize) -> (r: usize)
    requires
        from <= s@.len(),
    ensures
        r == skip_space(s@, from as int),
        from <= r <= s@.len(),
{
    skip_whitespace_to(s, from, s.len())
}

/// Whether `s` holds anything but whitespace: what `!str::trim(s).is_empty()` decides.
pub open spec fn has_non_space(s: Seq<u8>) -> bool {
    skip_space_to(s, 0, s.len() as int) < s.len()
}

/// The end of the line that starts at `start`: just past its line feed, or the end of `s`.
pub open spec fn line_end(s: Seq<u8>, start: int) -> int {
    match find_from(s, start, 10u8) {
        Some(i) => i + 1,
        None => s.len() as int,
    }
}

/// The end of a line's text once its trailing line feeds and carriage returns are removed.
pub open spec fn text_end(s: Seq<u8>, start: int, end: int) -> int
    decreases end - start,
{
    if end <= start {
        start
    } else if s[end - 1] == 10u8 || s[end - 1] == 13u8 {
        text_end(s, start, end - 1)
    } else {
        end
    }
}

/// The end of the line that starts at `start`: just past its line feed, or the end of `s`.
pub fn next_line_start(s: &[u8], start: usize) -> (r: usize)
    requires
        start < s@.len(),
    ensures
        r == line_end(s@, start as int),
        start < r <= s@.len(),
{
    proof {
        lemma_find_from(s@, start as int, 10u8);
    }
    let n = s.len();
    match find_byte(s, start, 10u8) {
        Some(i) => {
            assert(i < n);
            i + 1
        },
        None => n,
    }
}

/// The end of the text of the line `[start, end)` once trailing line feeds and carriage returns
/// are removed.
pub fn line_text_end(s: &[u8], start: usize, end: usize) -> (r: usize)
    requires
        start <= end <= s@.len(),
    ensures
        r == text_end(s@, start as int, end as int),
        start <= r <= end,
{
    let mut e = end;
    while e > start
        invariant
            start <= e <= end,
            end <= s@.len(),
            text_end(s@, start as int, end as int) == text_end(s@, start as int, e as int),
        decreases e - start,
    {
        let b = s[e - 1];
        if b != 10u8 && b != 13u8 {
            return e;
        }
        e = e - 1;
    }
    e
}

/// Whether `s[at..]` begins with `prefix` within `[at, end)`.
pub open spec fn has_prefix_at(s: Seq<u8>, at: int, end: int, prefix: Seq<u8>) -> bool {
    at + prefix.len() <= end && s.subrange(at, at + prefix.len()) == prefix
}

/// Whether `s[at..end]` begins with `prefix`.
pub fn starts_with_at(s: &[u8], at: usize, end: usize, prefix: &[u8]) -> (r: bool)
    requires
        at <= end <= s@.len(),
    ensures
        r == has_prefix_at(s@, at as int, end as int, prefix@),
{
    if prefix.len() > end - at {
        return false;
    }
    let mut i: usize = 0;
    while i < prefix.len()
        invariant
            at + prefix@.len() <= end <= s@.len(),
            0 <= i <= prefix@.len(),
            forall|j: int| 0 <= j < i ==> s@[at + j] == prefix@[j],
        decreases prefix@.len() - i,
    {
        if s[at + i] != prefix[i] {
            assert(s@.subrange(at as int, at + prefix@.len())[i as int] != prefix@[i as int]);
            return false;
        }
        i = i + 1;
    }
    assert(s@.subrange(at as int, at + prefix@.len()) =~= prefix@);
    true
}

} // verus!
