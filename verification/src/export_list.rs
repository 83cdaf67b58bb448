//! Exported-symbol lists: the version-script form `{ name; glob*; extern "C++" { name; }; };`
//! and Darwin's one-symbol-per-line form, and the test of whether a symbol is exported.
use vstd::prelude::*;
use crate::text::{find_from, find_byte, has_prefix_at, is_ascii_ws, is_space, lemma_find_from,
    line_end, starts_with_at};

verus! {

/// One pattern of an export list.
#[derive(Debug)]
pub enum SymbolMatcher {
    /// A name that must match exactly.
    Exact(Vec<u8>),
    /// A pattern in which `*` matches any run of bytes and `?` any one byte.
    Glob(Vec<u8>),
}

/// A pattern as a value: whether it is a glob, and its bytes.
pub open spec fn matcher_view(m: SymbolMatcher) -> (bool, Seq<u8>) {
    match m {
        SymbolMatcher::Exact(n) => (false, n@),
        SymbolMatcher::Glob(p) => (true, p@),
    }
}

/// The patterns of an export list: plain patterns, and those of `extern "C++"` blocks.
#[derive(Debug)]
pub struct MatchRules {
    pub general: Vec<SymbolMatcher>,
    pub cxx: Vec<SymbolMatcher>,
}

/// The symbols a linked image exports.
#[derive(Debug)]
pub struct ExportList(pub MatchRules);

/// How an export list is written.
#[derive(Debug, Clone, Copy, PartialEq, Eq)]
pub enum ExportListStyle {
    /// The version-script matcher syntax used by GNU-style dynamic-symbol lists.
    VersionScript,
    /// Darwin's `-exported_symbols_list`: one pattern per line, `#` comments.
    MachO,
}

/// Why an export list was refused.
#[derive(Debug, Clone, Copy, PartialEq, Eq)]
pub enum ExportListError {
    /// The text does not follow the list's grammar.
    Syntax,
    /// A line of a Darwin list (counted from one) is not UTF-8.
    InvalidUtf8 { line: usize },
}

/// Whether glob `p[i..]` matches `s[j..]`.
pub open spec fn glob_match_from(p: Seq<u8>, s: Seq<u8>, i: int, j: int) -> bool
    decreases p.len() - i, s.len() - j,
{
    if i < 0 || j < 0 || i > p.len() || j > s.len() {
        false
    } else if i == p.len() {
        j == s.len()
    } else if p[i] == 42u8 {
        glob_match_from(p, s, i + 1, j) || (j < s.len() && glob_match_from(p, s, i, j + 1))
    } else if j == s.len() {
        false
    } else if p[i] == 63u8 || p[i] == s[j] {
        glob_match_from(p, s, i + 1, j + 1)
    } else {
        false
    }
}

/// A pattern without `*` or `?` matches exactly the name equal to it.
pub proof fn lemma_glob_literal(p: Seq<u8>, s: Seq<u8>)
    requires
        forall|k: int| 0 <= k < p.len() ==> #[trigger] p[k] != 42u8 && p[k] != 63u8,
    ensures
        glob_match_from(p, s, 0, 0) <==> p == s,
{
    lemma_glob_literal_from(p, s, 0, 0);
    if p.len() == s.len() && p.subrange(0, p.len() as int) == s.subrange(0, s.len() as int) {
        assert(p =~= s) by {
            assert forall|k: int| 0 <= k < p.len() implies p[k] == s[k] by {
                assert(p.subrange(0, p.len() as int)[k] == s.subrange(0, s.len() as int)[k]);
            }
        }
    }
    if p == s {
        assert(p.subrange(0, p.len() as int) =~= s.subrange(0, s.len() as int));
    }
}

proof fn lemma_glob_literal_from(p: Seq<u8>, s: Seq<u8>, i: int, j: int)
    requires
        forall|k: int| 0 <= k < p.len() ==> #[trigger] p[k] != 42u8 && p[k] != 63u8,
        0 <= i <= p.len(),
        0 <= j <= s.len(),
    ensures
        glob_match_from(p, s, i, j) <==> (p.len() - i == s.len() - j && p.subrange(i, p.len() as int)
            == s.subrange(j, s.len() as int)),
    decreases p.len() - i,
{
    if i < p.len() && j < s.len() {
        lemma_glob_literal_from(p, s, i + 1, j + 1);
        if p.len() - i == s.len() - j && p.subrange(i, p.len() as int) == s.subrange(j, s.len() as int) {
            assert(p.subrange(i, p.len() as int)[0] == s.subrange(j, s.len() as int)[0]);
            assert(p.subrange(i + 1, p.len() as int) =~= p.subrange(i, p.len() as int).subrange(1, p.len() - i));
            assert(s.subrange(j + 1, s.len() as int) =~= s.subrange(j, s.len() as int).subrange(1, s.len() - j));
        }
        if p[i] == s[j] && p.len() - i == s.len() - j && p.subrange(i + 1, p.len() as int) == s.subrange(j + 1, s.len() as int) {
            assert(p.subrange(i, p.len() as int) =~= s.subrange(j, s.len() as int)) by {
                assert forall|k: int| 0 <= k < p.len() - i implies p.subrange(i, p.len() as int)[k] == s.subrange(j, s.len() as int)[k] by {
                    if k > 0 {
                        assert(p.subrange(i + 1, p.len() as int)[k - 1] == s.subrange(j + 1, s.len() as int)[k - 1]);
                    }
                }
            }
        }
    } else if i < p.len() {
        assert(p.len() - i != s.len() - j);
    } else if j < s.len() {
        assert(p.len() - i != s.len() - j);
    } else {
        assert(p.subrange(i, p.len() as int) =~= s.subrange(j, s.len() as int));
    }
}

/// The pattern `*` matches every name.
pub proof fn lemma_glob_star_matches_all(s: Seq<u8>)
    ensures
        glob_match_from(seq![42u8], s, 0, 0),
{
    lemma_glob_star_at(s, 0);
}

proof fn lemma_glob_star_at(s: Seq<u8>, k: int)
    requires
        0 <= k <= s.len(),
    ensures
        glob_match_from(seq![42u8], s, 0, k),
    decreases s.len() - k,
{
    let p = seq![42u8];
    if k < s.len() {
        lemma_glob_star_at(s, k + 1);
    } else {
        assert(glob_match_from(p, s, 1, k));
    }
}

/// The pattern `?` matches exactly the names of one byte.
pub proof fn lemma_glob_question_matches_one(s: Seq<u8>)
    ensures
        glob_match_from(seq![63u8], s, 0, 0) <==> s.len() == 1,
{
    let p = seq![63u8];
    if s.len() >= 1 {
        assert(glob_match_from(p, s, 0, 0) == glob_match_from(p, s, 1, 1));
    }
}

/// Whether a pattern matches `name`.
pub open spec fn matcher_matches(m: (bool, Seq<u8>), name: Seq<u8>) -> bool {
    if m.0 {
        glob_match_from(m.1, name, 0, 0)
    } else {
        m.1 == name
    }
}

/// Whether some pattern of `rules` matches `name`.
pub open spec fn rules_match(rules: Seq<SymbolMatcher>, name: Seq<u8>) -> bool {
    exists|k: int| 0 <= k < rules.len() && matcher_matches(matcher_view(#[trigger] rules[k]), name)
}

/// Whether glob `p` matches `s`, by filling the table of suffix matches from the end.
pub fn glob_matches(p: &[u8], s: &[u8]) -> (r: bool)
    requires
        s@.len() < usize::MAX,
    ensures
        r == glob_match_from(p@, s@, 0, 0),
{
    let plen = p.len();
    let slen = s.len();
    // row[j] holds glob_match_from(p, s, i, j) for the current i.
    let mut row: Vec<bool> = Vec::new();
    let mut j: usize = 0;
    while j <= slen
        invariant
            0 <= j <= slen + 1,
            slen < usize::MAX,
            slen == s@.len(),
            plen == p@.len(),
            row@.len() == j,
            forall|k: int| 0 <= k < j ==> #[trigger] row@[k] == glob_match_from(p@, s@, plen as int, k),
        decreases slen + 1 - j,
    {
        row.push(j == slen);
        j = j + 1;
    }
    let mut i: usize = plen;
    while i > 0
        invariant
            0 <= i <= plen,
            slen < usize::MAX,
            slen == s@.len(),
            plen == p@.len(),
            row@.len() == slen + 1,
            forall|k: int| 0 <= k <= slen ==> #[trigger] row@[k] == glob_match_from(p@, s@, i as int, k),
        decreases i,
    {
        let pi = p[i - 1];
        // next[j] = glob_match_from(p, s, i - 1, j), filled from j = slen down to 0.
        let mut next: Vec<bool> = Vec::new();
        let mut k: usize = 0;
        while k <= slen
            invariant
                0 <= k <= slen + 1,
                slen < usize::MAX,
                next@.len() == k,
                forall|t: int| 0 <= t < k ==> #[trigger] next@[t] == false,
            decreases slen + 1 - k,
        {
            next.push(false);
            k = k + 1;
        }
        let mut jj: usize = slen + 1;
        while jj > 0
            invariant
                0 <= jj <= slen + 1,
                slen < usize::MAX,
                slen == s@.len(),
                plen == p@.len(),
                1 <= i <= plen,
                pi == p@[i - 1],
                row@.len() == slen + 1,
                next@.len() == slen + 1,
                forall|k: int| 0 <= k <= slen ==> #[trigger] row@[k] == glob_match_from(p@, s@, i as int, k),
                forall|t: int|
                    jj <= t <= slen ==> #[trigger] next@[t] == glob_match_from(p@, s@, i - 1, t),
            decreases jj,
        {
            let j = jj - 1;
            let value = if pi == 42u8 {
                row[j] || (j < slen && next[j + 1])
            } else if j == slen {
                false
            } else if pi == 63u8 || pi == s[j] {
                row[j + 1]
            } else {
                false
            };
            next.set(j, value);
            jj = j;
        }
        row = next;
        i = i - 1;
    }
    row[0]
}

/// Whether some pattern of `rules` matches `name`.
fn any_matches(rules: &Vec<SymbolMatcher>, name: &[u8]) -> (r: bool)
    requires
        name@.len() < usize::MAX,
    ensures
        r == rules_match(rules@, name@),
{
    let mut k: usize = 0;
    while k < rules.len()
        invariant
            0 <= k <= rules@.len(),
            name@.len() < usize::MAX,
            forall|t: int| 0 <= t < k ==> !matcher_matches(matcher_view(#[trigger] rules@[t]), name@),
        decreases rules@.len() - k,
    {
        let ghost m = matcher_view(rules@[k as int]);
        let found = match &rules[k] {
            SymbolMatcher::Exact(n) => crate::segment::bytes_equal(n.as_slice(), name),
            SymbolMatcher::Glob(p) => {
                assert(p@ == m.1);
                glob_matches(p.as_slice(), name)
            },
        };
        if found {
            return true;
        }
        k = k + 1;
    }
    false
}

impl ExportList {
    /// Whether the list exports `name`: some plain or C++ pattern matches it exactly or as a
    /// glob.
    pub fn contains(&self, name: &[u8]) -> (r: bool)
        requires
            name@.len() < usize::MAX,
        ensures
            r == (rules_match(self.0.general@, name@) || rules_match(self.0.cxx@, name@)),
    {
        any_matches(&self.0.general, name) || any_matches(&self.0.cxx, name)
    }
}

/// The first position at or after `from` where `*/` begins.
pub open spec fn find_comment_end(s: Seq<u8>, from: int) -> Option<int>
    decreases s.len() - from,
{
    if from < 0 || from + 1 >= s.len() {
        None
    } else if s[from] == 42u8 && s[from + 1] == 47u8 {
        Some(from)
    } else {
        find_comment_end(s, from + 1)
    }
}

/// The position after whitespace, `#` line comments and `/* */` block comments from `pos`;
/// `None` for an unterminated block comment.
pub open spec fn skip_ws_comments(s: Seq<u8>, pos: int) -> Option<int>
    decreases s.len() - pos,
{
    if pos < 0 {
        None
    } else if pos >= s.len() {
        Some(s.len() as int)
    } else if is_space(s[pos]) {
        skip_ws_comments(s, pos + 1)
    } else if s[pos] == 35u8 {
        if pos < line_end(s, pos) <= s.len() {
            skip_ws_comments(s, line_end(s, pos))
        } else {
            None
        }
    } else if s[pos] == 47u8 && pos + 1 < s.len() && s[pos + 1] == 42u8 {
        match find_comment_end(s, pos + 2) {
            None => None,
            Some(q) => if pos < q + 2 <= s.len() {
                skip_ws_comments(s, q + 2)
            } else {
                None
            },
        }
    } else {
        Some(pos)
    }
}

/// Whether a byte ends an unquoted pattern.
pub open spec fn ends_token(b: u8) -> bool {
    is_space(b) || b == 59u8 || b == 123u8 || b == 125u8 || b == 34u8 || b == 35u8
}

/// The end of the unquoted pattern at `pos`.
pub open spec fn token_end(s: Seq<u8>, pos: int) -> int
    decreases s.len() - pos,
{
    if pos < 0 || pos >= s.len() {
        s.len() as int
    } else if ends_token(s[pos]) {
        pos
    } else {
        token_end(s, pos + 1)
    }
}

/// Whether a pattern uses `*` or `?`.
pub open spec fn has_glob_char(p: Seq<u8>) -> bool {
    exists|i: int| 0 <= i < p.len() && (#[trigger] p[i] == 42u8 || p[i] == 63u8)
}

/// The pattern at `pos` and the position after it: a double-quoted name matches exactly; an
/// unquoted pattern runs to whitespace, `;`, a brace, a quote or `#`, and is a glob when it uses
/// `*` or `?`.
pub open spec fn spec_parse_name(s: Seq<u8>, pos: int) -> Option<((bool, Seq<u8>), int)> {
    if pos < 0 || pos >= s.len() {
        None
    } else if s[pos] == 34u8 {
        match find_from(s, pos + 1, 34u8) {
            None => None,
            Some(q) => if q == pos + 1 {
                None
            } else {
                Some(((false, s.subrange(pos + 1, q)), q + 1))
            },
        }
    } else {
        let e = token_end(s, pos);
        if e <= pos {
            None
        } else {
            let name = s.subrange(pos, e);
            Some(((has_glob_char(name), name), e))
        }
    }
}

/// The patterns of an `extern` block's body from `pos` up to its closing brace, and the
/// position of that brace.
pub open spec fn spec_parse_inner(s: Seq<u8>, pos: int) -> Option<(Seq<(bool, Seq<u8>)>, int)>
    decreases s.len() - pos,
{
    match skip_ws_comments(s, pos) {
        None => None,
        Some(p) => if p < s.len() && s[p] == 125u8 {
            Some((Seq::empty(), p))
        } else {
            match spec_parse_name(s, p) {
                None => None,
                Some((m, e)) => match skip_ws_comments(s, e) {
                    Some(p2) => if p2 < s.len() && s[p2] == 59u8 && p2 + 1 > pos {
                        match spec_parse_inner(s, p2 + 1) {
                            Some((rest, end)) => Some((seq![m] + rest, end)),
                            None => None,
                        }
                    } else {
                        None
                    },
                    None => None,
                },
            }
        },
    }
}

/// `C++`.
pub open spec fn cxx_language() -> Seq<u8> {
    seq![67u8, 43, 43]
}

/// `extern`.
pub open spec fn extern_keyword() -> Seq<u8> {
    seq![101u8, 120, 116, 101, 114, 110]
}

/// One entry of a version-script list at `pos`: either `extern "lang" { patterns };`, whose
/// patterns are C++ patterns when the language is `C++`, or a single `pattern;`. Gives the plain
/// and C++ patterns and the position after the entry.
#[verifier::opaque]
pub open spec fn spec_parse_entry(s: Seq<u8>, pos: int) -> Option<
    (Seq<(bool, Seq<u8>)>, Seq<(bool, Seq<u8>)>, int),
> {
    if has_prefix_at(s, pos, s.len() as int, extern_keyword()) && pos + 6 < s.len() && (is_space(
        s[pos + 6],
    ) || s[pos + 6] == 34u8) {
        match skip_ws_comments(s, pos + 6) {
            None => None,
            Some(p) => if !(p < s.len() && s[p] == 34u8) {
                None
            } else {
                match find_from(s, p + 1, 34u8) {
                    None => None,
                    Some(q) => {
                        let cxx = s.subrange(p + 1, q) == cxx_language();
                        match skip_ws_comments(s, q + 1) {
                            None => None,
                            Some(p2) => if !(p2 < s.len() && s[p2] == 123u8) {
                                None
                            } else {
                                match spec_parse_inner(s, p2 + 1) {
                                    None => None,
                                    Some((items, close)) => match skip_ws_comments(s, close + 1) {
                                        None => None,
                                        Some(p4) => if p4 < s.len() && s[p4] == 59u8 {
                                            if cxx {
                                                Some((Seq::empty(), items, p4 + 1))
                                            } else {
                                                Some((items, Seq::empty(), p4 + 1))
                                            }
                                        } else {
                                            None
                                        },
                                    },
                                }
                            },
                        }
                    },
                }
            },
        }
    } else {
        match spec_parse_name(s, pos) {
            None => None,
            Some((m, e)) => match skip_ws_comments(s, e) {
                Some(p) => if p < s.len() && s[p] == 59u8 {
                    Some((seq![m], Seq::empty(), p + 1))
                } else {
                    None
                },
                None => None,
            },
        }
    }
}

/// The entries of a version-script list from `pos` through its closing `};`, after which only
/// whitespace and comments may follow.
pub open spec fn spec_parse_entries(s: Seq<u8>, pos: int) -> Option<
    (Seq<(bool, Seq<u8>)>, Seq<(bool, Seq<u8>)>),
>
    decreases s.len() - pos,
{
    match skip_ws_comments(s, pos) {
        None => None,
        Some(p) => if has_prefix_at(s, p, s.len() as int, seq![125u8, 59u8]) {
            match skip_ws_comments(s, p + 2) {
                Some(q) => if q == s.len() {
                    Some((Seq::empty(), Seq::empty()))
                } else {
                    None
                },
                None => None,
            }
        } else {
            match spec_parse_entry(s, p) {
                None => None,
                Some((g, c, next)) => if pos < next <= s.len() {
                    match spec_parse_entries(s, next) {
                        Some((g2, c2)) => Some((g + g2, c + c2)),
                        None => None,
                    }
                } else {
                    None
                },
            }
        }
    }
}

/// A version-script export list: `{`, entries, `};`.
pub open spec fn spec_parse_version_script(s: Seq<u8>) -> Option<
    (Seq<(bool, Seq<u8>)>, Seq<(bool, Seq<u8>)>),
> {
    match skip_ws_comments(s, 0) {
        Some(p) => if p < s.len() && s[p] == 123u8 {
            spec_parse_entries(s, p + 1)
        } else {
            None
        },
        None => None,
    }
}

/// The views of a list of patterns.
pub open spec fn matchers_view(m: Seq<SymbolMatcher>) -> Seq<(bool, Seq<u8>)> {
    m.map_values(|x: SymbolMatcher| matcher_view(x))
}

/// Bounds of the scanning positions.
proof fn lemma_scan_bounds(s: Seq<u8>, pos: int)
    requires
        0 <= pos <= s.len(),
    ensures
        skip_ws_comments(s, pos) matches Some(p) ==> pos <= p <= s.len(),
        pos <= token_end(s, pos) <= s.len(),
        find_comment_end(s, pos) matches Some(q) ==> pos <= q && q + 2 <= s.len(),
    decreases s.len() - pos,
{
    if pos < s.len() {
        lemma_scan_bounds(s, pos + 1);
        if s[pos] == 35u8 && pos < line_end(s, pos) <= s.len() {
            lemma_scan_bounds(s, line_end(s, pos));
        }
        if s[pos] == 47u8 && pos + 1 < s.len() && s[pos + 1] == 42u8 {
            lemma_scan_bounds(s, pos + 2);
            match find_comment_end(s, pos + 2) {
                Some(q) => if pos < q + 2 <= s.len() {
                    lemma_scan_bounds(s, q + 2);
                },
                None => {},
            }
        }
    }
}

/// The first position at or after `from` where `*/` begins.
fn find_comment_close(s: &[u8], from: usize) -> (r: Option<usize>)
    ensures
        match r {
            Some(q) => find_comment_end(s@, from as int) == Some(q as int),
            None => find_comment_end(s@, from as int) is None,
        },
{
    let n = s.len();
    let mut i = from;
    while i < n && i + 1 < n
        invariant
            from <= i,
            n == s@.len(),
            find_comment_end(s@, from as int) == find_comment_end(s@, i as int),
        decreases n - i,
    {
        if s[i] == 42u8 && s[i + 1] == 47u8 {
            return Some(i);
        }
        i = i + 1;
    }
    None
}

/// The position after whitespace and comments from `pos`; `None` for an unterminated block
/// comment.
fn skip_comments_and_whitespace(s: &[u8], pos: usize) -> (r: Option<usize>)
    requires
        pos <= s@.len(),
    ensures
        match r {
            Some(p) => skip_ws_comments(s@, pos as int) == Some(p as int),
            None => skip_ws_comments(s@, pos as int) is None,
        },
{
    let n = s.len();
    let mut p = pos;
    while p < n
        invariant
            pos <= p <= n,
            n == s@.len(),
            skip_ws_comments(s@, pos as int) == skip_ws_comments(s@, p as int),
        decreases n - p,
    {
        let b = s[p];
        if b == 32 || (9 <= b && b <= 13) {
            p = p + 1;
        } else if b == 35u8 {
            proof {
                crate::text::lemma_find_from(s@, p as int, 10u8);
            }
            p = crate::text::next_line_start(s, p);
        } else if b == 47u8 && p + 1 < n && s[p + 1] == 42u8 {
            proof {
                lemma_scan_bounds(s@, p + 2);
            }
            match find_comment_close(s, p + 2) {
                None => {
                    return None;
                },
                Some(q) => {
                    p = q + 2;
                },
            }
        } else {
            return Some(p);
        }
    }
    Some(p)
}

/// The end of the unquoted pattern at `pos`.
fn pattern_end(s: &[u8], pos: usize) -> (r: usize)
    requires
        pos <= s@.len(),
    ensures
        r == token_end(s@, pos as int),
{
    let mut i = pos;
    while i < s.len()
        invariant
            pos <= i <= s@.len(),
            token_end(s@, pos as int) == token_end(s@, i as int),
        decreases s@.len() - i,
    {
        let b = s[i];
        if b == 32 || (9 <= b && b <= 13) || b == 59u8 || b == 123u8 || b == 125u8 || b == 34u8
            || b == 35u8 {
            return i;
        }
        i = i + 1;
    }
    i
}

/// Whether a pattern uses `*` or `?`.
fn uses_glob(p: &[u8]) -> (r: bool)
    ensures
        r == has_glob_char(p@),
{
    let mut i: usize = 0;
    while i < p.len()
        invariant
            0 <= i <= p@.len(),
            forall|j: int| 0 <= j < i ==> !(#[trigger] p@[j] == 42u8 || p@[j] == 63u8),
        decreases p@.len() - i,
    {
        if p[i] == 42u8 || p[i] == 63u8 {
            return true;
        }
        i = i + 1;
    }
    false
}

/// The pattern at `pos` and the position after it.
fn parse_name(s: &[u8], pos: usize) -> (r: Option<(SymbolMatcher, usize)>)
    requires
        pos <= s@.len(),
    ensures
        match spec_parse_name(s@, pos as int) {
            None => r is None,
            Some((m, e)) => r matches Some((x, xe)) && matcher_view(x) == m && xe == e,
        },
{
    if pos >= s.len() {
        return None;
    }
    if s[pos] == 34u8 {
        proof {
            crate::text::lemma_find_from(s@, pos + 1, 34u8);
        }
        match find_byte(s, pos + 1, 34u8) {
            None => None,
            Some(q) => {
                if q == pos + 1 {
                    return None;
                }
                let name = vstd::slice::slice_to_vec(vstd::slice::slice_subrange(s, pos + 1, q));
                Some((SymbolMatcher::Exact(name), q + 1))
            },
        }
    } else {
        let e = pattern_end(s, pos);
        proof {
            lemma_scan_bounds(s@, pos as int);
        }
        if e <= pos {
            return None;
        }
        let name = vstd::slice::slice_to_vec(vstd::slice::slice_subrange(s, pos, e));
        if uses_glob(name.as_slice()) {
            Some((SymbolMatcher::Glob(name), e))
        } else {
            Some((SymbolMatcher::Exact(name), e))
        }
    }
}

/// A parsed pattern lies after `pos` and within the text.
proof fn lemma_parse_name_bounds(s: Seq<u8>, pos: int)
    requires
        0 <= pos <= s.len(),
    ensures
        spec_parse_name(s, pos) matches Some((m, e)) ==> pos < e <= s.len(),
{
    lemma_scan_bounds(s, pos);
    if pos < s.len() && s[pos] == 34u8 {
        crate::text::lemma_find_from(s, pos + 1, 34u8);
    }
}

/// The patterns of an `extern` block's body from `pos` up to its closing brace, appended to
/// `out`, and the position of that brace.
fn parse_inner(s: &[u8], pos: usize, out: &mut Vec<SymbolMatcher>) -> (r: Option<usize>)
    requires
        pos <= s@.len(),
    ensures
        match spec_parse_inner(s@, pos as int) {
            None => r is None,
            Some((items, close)) => r == Some(close as usize) && matchers_view(final(out)@)
                == matchers_view(old(out)@) + items,
        },
{
    let ghost start = matchers_view(out@);
    let ghost mut acc: Seq<(bool, Seq<u8>)> = Seq::empty();
    let mut p = pos;
    while p <= s.len()
        invariant
            pos <= p <= s@.len(),
            spec_parse_inner(s@, pos as int) == match spec_parse_inner(s@, p as int) {
                Some((rest, end)) => Some((acc + rest, end)),
                None => None,
            },
            matchers_view(out@) == start + acc,
            start == matchers_view(old(out)@),
        decreases s@.len() - p,
    {
        proof {
            lemma_scan_bounds(s@, p as int);
        }
        let q = match skip_comments_and_whitespace(s, p) {
            Some(q) => q,
            None => {
                return None;
            },
        };
        if q < s.len() && s[q] == 125u8 {
            assert(spec_parse_inner(s@, p as int) == Some(
                (Seq::<(bool, Seq<u8>)>::empty(), q as int),
            ));
            assert(acc + Seq::<(bool, Seq<u8>)>::empty() =~= acc);
            return Some(q);
        }
        proof {
            lemma_parse_name_bounds(s@, q as int);
        }
        let (m, e) = match parse_name(s, q) {
            Some(x) => x,
            None => {
                return None;
            },
        };
        let p2 = match skip_comments_and_whitespace(s, e) {
            Some(p2) => p2,
            None => {
                return None;
            },
        };
        proof {
            lemma_scan_bounds(s@, e as int);
        }
        if !(p2 < s.len() && s[p2] == 59u8) {
            return None;
        }
        let ghost before = out@;
        out.push(m);
        proof {
            let mv = matcher_view(m);
            assert(matchers_view(out@) =~= matchers_view(before).push(mv));
            assert(start + acc.push(mv) =~= (start + acc).push(mv));
            match spec_parse_inner(s@, p2 + 1) {
                Some((rest, end)) => {
                    assert(acc + (seq![mv] + rest) =~= acc.push(mv) + rest);
                },
                None => {},
            }
            acc = acc.push(mv);
        }
        p = p2 + 1;
    }
    None
}

/// One entry of a version-script list at `pos`; its plain patterns are appended to `general`
/// and its C++ patterns to `cxx`. Gives the position after the entry.
fn parse_entry(
    s: &[u8],
    pos: usize,
    general: &mut Vec<SymbolMatcher>,
    cxx: &mut Vec<SymbolMatcher>,
) -> (r: Option<usize>)
    requires
        pos <= s@.len(),
    ensures
        match spec_parse_entry(s@, pos as int) {
            None => r is None,
            Some((g, c, next)) => r == Some(next as usize) && matchers_view(final(general)@)
                == matchers_view(old(general)@) + g && matchers_view(final(cxx)@) == matchers_view(
                old(cxx)@,
            ) + c,
        },
{
    reveal(spec_parse_entry);
    let n = s.len();
    let keyword: [u8; 6] = [101u8, 120, 116, 101, 114, 110];
    assert(keyword@ =~= extern_keyword());
    if starts_with_at(s, pos, n, keyword.as_slice()) && pos + 6 < n && (s[pos + 6] == 32 || (9
        <= s[pos + 6] && s[pos + 6] <= 13) || s[pos + 6] == 34u8) {
        let p = skip_comments_and_whitespace(s, pos + 6)?;
        proof {
            lemma_scan_bounds(s@, pos + 6);
        }
        if !(p < n && s[p] == 34u8) {
            return None;
        }
        proof {
            crate::text::lemma_find_from(s@, p + 1, 34u8);
        }
        let q = find_byte(s, p + 1, 34u8)?;
        let lang = vstd::slice::slice_subrange(s, p + 1, q);
        let cxx_name: [u8; 3] = [67u8, 43, 43];
        assert(cxx_name@ =~= cxx_language());
        let is_cxx = crate::segment::bytes_equal(lang, cxx_name.as_slice());
        let p2 = skip_comments_and_whitespace(s, q + 1)?;
        proof {
            lemma_scan_bounds(s@, q + 1);
        }
        if !(p2 < n && s[p2] == 123u8) {
            return None;
        }
        let ghost g0 = general@;
        let ghost c0 = cxx@;
        let close = if is_cxx {
            parse_inner(s, p2 + 1, cxx)?
        } else {
            parse_inner(s, p2 + 1, general)?
        };
        proof {
            if !is_cxx {
                assert(matchers_view(cxx@) == matchers_view(c0) + Seq::<(bool, Seq<u8>)>::empty());
            } else {
                assert(matchers_view(general@) == matchers_view(g0) + Seq::<(bool, Seq<u8>)>::empty());
            }
        }
        proof {
            lemma_parse_inner_bounds(s@, p2 + 1);
        }
        let p4 = skip_comments_and_whitespace(s, close + 1)?;
        proof {
            lemma_scan_bounds(s@, close + 1);
        }
        if p4 < n && s[p4] == 59u8 {
            Some(p4 + 1)
        } else {
            None
        }
    } else {
        proof {
            lemma_parse_name_bounds(s@, pos as int);
        }
        let (m, e) = parse_name(s, pos)?;
        let p = skip_comments_and_whitespace(s, e)?;
        proof {
            lemma_scan_bounds(s@, e as int);
        }
        if p < n && s[p] == 59u8 {
            let ghost before = general@;
            general.push(m);
            proof {
                assert(matchers_view(general@) =~= matchers_view(before) + seq![matcher_view(m)]);
                assert(matchers_view(cxx@) =~= matchers_view(cxx@) + Seq::<(bool, Seq<u8>)>::empty());
            }
            Some(p + 1)
        } else {
            None
        }
    }
}

/// The closing brace of an `extern` body lies within the text.
proof fn lemma_parse_inner_bounds(s: Seq<u8>, pos: int)
    requires
        0 <= pos <= s.len(),
    ensures
        spec_parse_inner(s, pos) matches Some((items, close)) ==> pos <= close < s.len(),
    decreases s.len() - pos,
{
    lemma_scan_bounds(s, pos);
    match skip_ws_comments(s, pos) {
        Some(p) => if !(p < s.len() && s[p] == 125u8) {
            lemma_parse_name_bounds(s, p);
            match spec_parse_name(s, p) {
                Some((m, e)) => {
                    lemma_scan_bounds(s, e);
                    match skip_ws_comments(s, e) {
                        Some(p2) => if p2 < s.len() && s[p2] == 59u8 && p2 + 1 > pos {
                            lemma_parse_inner_bounds(s, p2 + 1);
                        },
                        None => {},
                    }
                },
                None => {},
            }
        },
        None => {},
    }
}

/// An entry ends after `pos` and within the text.
proof fn lemma_parse_entry_bounds(s: Seq<u8>, pos: int)
    requires
        0 <= pos <= s.len(),
    ensures
        spec_parse_entry(s, pos) matches Some((g, c, next)) ==> pos < next <= s.len(),
{
    reveal(spec_parse_entry);
    lemma_parse_name_bounds(s, pos);
    if pos + 6 < s.len() {
        lemma_scan_bounds(s, pos + 6);
        match skip_ws_comments(s, pos + 6) {
            Some(p) => if p < s.len() {
                crate::text::lemma_find_from(s, p + 1, 34u8);
                match find_from(s, p + 1, 34u8) {
                    Some(q) => {
                        lemma_scan_bounds(s, q + 1);
                        match skip_ws_comments(s, q + 1) {
                            Some(p2) => if p2 < s.len() {
                                lemma_parse_inner_bounds(s, p2 + 1);
                                match spec_parse_inner(s, p2 + 1) {
                                    Some((items, close)) => lemma_scan_bounds(s, close + 1),
                                    None => {},
                                }
                            },
                            None => {},
                        }
                    },
                    None => {},
                }
            },
            None => {},
        }
    }
    match spec_parse_name(s, pos) {
        Some((m, e)) => lemma_scan_bounds(s, e),
        None => {},
    }
}

/// The entries of a version-script list from `pos` through its closing `};`, appended to
/// `general` and `cxx`.
fn parse_entries(
    s: &[u8],
    pos: usize,
    general: &mut Vec<SymbolMatcher>,
    cxx: &mut Vec<SymbolMatcher>,
) -> (r: bool)
    requires
        pos <= s@.len(),
    ensures
        match spec_parse_entries(s@, pos as int) {
            None => !r,
            Some((g, c)) => r && matchers_view(final(general)@) == matchers_view(old(general)@) + g
                && matchers_view(final(cxx)@) == matchers_view(old(cxx)@) + c,
        },
{
    let n = s.len();
    let ghost g_start = matchers_view(general@);
    let ghost c_start = matchers_view(cxx@);
    let ghost mut g_acc: Seq<(bool, Seq<u8>)> = Seq::empty();
    let ghost mut c_acc: Seq<(bool, Seq<u8>)> = Seq::empty();
    let mut p = pos;
    let end: [u8; 2] = [125u8, 59u8];
    assert(end@ =~= seq![125u8, 59u8]);
    while p <= n
        invariant
            pos <= p <= n,
            n == s@.len(),
            end@ == seq![125u8, 59u8],
            spec_parse_entries(s@, pos as int) == match spec_parse_entries(s@, p as int) {
                Some((g, c)) => Some((g_acc + g, c_acc + c)),
                None => None,
            },
            matchers_view(general@) == g_start + g_acc,
            matchers_view(cxx@) == c_start + c_acc,
            g_start == matchers_view(old(general)@),
            c_start == matchers_view(old(cxx)@),
        decreases n - p,
    {
        proof {
            lemma_scan_bounds(s@, p as int);
        }
        let q = match skip_comments_and_whitespace(s, p) {
            Some(q) => q,
            None => {
                return false;
            },
        };
        if starts_with_at(s, q, n, end.as_slice()) {
            proof {
                lemma_scan_bounds(s@, q + 2);
            }
            return match skip_comments_and_whitespace(s, q + 2) {
                Some(t) => {
                    assert(g_acc + Seq::<(bool, Seq<u8>)>::empty() =~= g_acc);
                    assert(c_acc + Seq::<(bool, Seq<u8>)>::empty() =~= c_acc);
                    t == n
                },
                None => false,
            };
        }
        proof {
            lemma_parse_entry_bounds(s@, q as int);
        }
        let ghost gb = matchers_view(general@);
        let ghost cb = matchers_view(cxx@);
        let next = match parse_entry(s, q, general, cxx) {
            Some(next) => next,
            None => {
                return false;
            },
        };
        proof {
            let (g, c, nx) = spec_parse_entry(s@, q as int)->Some_0;
            assert(matchers_view(general@) == g_start + (g_acc + g));
            assert(matchers_view(cxx@) == c_start + (c_acc + c));
            match spec_parse_entries(s@, next as int) {
                Some((g2, c2)) => {
                    assert(g_acc + (g + g2) =~= (g_acc + g) + g2);
                    assert(c_acc + (c + c2) =~= (c_acc + c) + c2);
                },
                None => {},
            }
            g_acc = g_acc + g;
            c_acc = c_acc + c;
        }
        p = next;
    }
    false
}

impl ExportList {
    /// An empty list.
    pub fn new() -> (r: ExportList)
        ensures
            r.0.general@.len() == 0 && r.0.cxx@.len() == 0,
    {
        ExportList(MatchRules { general: Vec::new(), cxx: Vec::new() })
    }

    /// Parses a version-script export list `{ pattern; ... extern "C++" { pattern; ... }; };`
    /// with `#` and `/* */` comments; nothing but whitespace and comments may follow the closing
    /// `};`.
    pub fn parse(data: &[u8]) -> (r: Result<ExportList, ExportListError>)
        ensures
            match spec_parse_version_script(data@) {
                None => r == Err::<ExportList, ExportListError>(ExportListError::Syntax),
                Some((g, c)) => r matches Ok(list) && matchers_view(list.0.general@) == g
                    && matchers_view(list.0.cxx@) == c,
            },
    {
        let mut general: Vec<SymbolMatcher> = Vec::new();
        let mut cxx: Vec<SymbolMatcher> = Vec::new();
        proof {
            lemma_scan_bounds(data@, 0);
        }
        let p = match skip_comments_and_whitespace(data, 0) {
            Some(p) => p,
            None => {
                return Err(ExportListError::Syntax);
            },
        };
        if !(p < data.len() && data[p] == 123u8) {
            return Err(ExportListError::Syntax);
        }
        assert(matchers_view(general@) =~= Seq::<(bool, Seq<u8>)>::empty());
        assert(matchers_view(cxx@) =~= Seq::<(bool, Seq<u8>)>::empty());
        if !parse_entries(data, p + 1, &mut general, &mut cxx) {
            return Err(ExportListError::Syntax);
        }
        proof {
            let (g, c) = spec_parse_entries(data@, p + 1)->Some_0;
            assert(Seq::<(bool, Seq<u8>)>::empty() + g =~= g);
            assert(Seq::<(bool, Seq<u8>)>::empty() + c =~= c);
        }
        Ok(ExportList(MatchRules { general, cxx }))
    }
}

/// Decides whether bytes are UTF-8 with `std::str::from_utf8`, which succeeds exactly on valid
/// UTF-8 (as `vstd::utf8::valid_utf8` defines it).
#[verifier::external_body]
fn is_utf8(bytes: &[u8]) -> (r: bool)
    ensures
        r == vstd::utf8::valid_utf8(bytes@),
{
    std::str::from_utf8(bytes).is_ok()
}

/// The pattern of one symbol: a pattern, followed by `;` unless `without_semicolon`.
pub open spec fn spec_add_symbol(symbol: Seq<u8>, without_semicolon: bool) -> Option<(bool, Seq<u8>)> {
    match spec_parse_name(symbol, 0) {
        None => None,
        Some((m, e)) => if without_semicolon {
            Some(m)
        } else {
            match skip_ws_comments(symbol, e) {
                Some(p) => if p < symbol.len() && symbol[p] == 59u8 {
                    Some(m)
                } else {
                    None
                },
                None => None,
            }
        },
    }
}

/// The first position in `[from, end)` that is not ASCII whitespace, or `end`.
pub open spec fn ascii_trim_start(s: Seq<u8>, from: int, end: int) -> int
    decreases end - from,
{
    if from >= end {
        end
    } else if is_ascii_ws(s[from]) {
        ascii_trim_start(s, from + 1, end)
    } else {
        from
    }
}

/// The end of `[start, end)` once trailing ASCII whitespace is removed.
pub open spec fn ascii_trim_end(s: Seq<u8>, start: int, end: int) -> int
    decreases end - start,
{
    if end <= start {
        start
    } else if is_ascii_ws(s[end - 1]) {
        ascii_trim_end(s, start, end - 1)
    } else {
        end
    }
}

/// The patterns of a Darwin list from the line that starts at `start` (line number `line`, from
/// zero) on: each line loses everything from its first `#` and its surrounding ASCII whitespace;
/// an empty line is skipped; a line that is not UTF-8 is refused with its number.
pub open spec fn spec_macho_lines(s: Seq<u8>, start: int, line: int) -> Result<
    Seq<(bool, Seq<u8>)>,
    ExportListError,
>
    decreases s.len() + 1 - start,
{
    if start < 0 || start > s.len() {
        Ok(Seq::empty())
    } else {
        let nl = find_from(s, start, 10u8);
        let end = match nl {
            Some(i) => i,
            None => s.len() as int,
        };
        let cut = match find_from(s, start, 35u8) {
            Some(h) => if h < end {
                h
            } else {
                end
            },
            None => end,
        };
        let a = ascii_trim_start(s, start, cut);
        let b = ascii_trim_end(s, a, cut);
        let rest = match nl {
            Some(i) => if start < i + 1 <= s.len() {
                spec_macho_lines(s, i + 1, line + 1)
            } else {
                Ok(Seq::empty())
            },
            None => Ok(Seq::empty()),
        };
        if a >= b {
            rest
        } else if !vstd::utf8::valid_utf8(s.subrange(a, b)) {
            Err(ExportListError::InvalidUtf8 { line: (line + 1) as usize })
        } else {
            match spec_add_symbol(s.subrange(a, b), true) {
                None => Err(ExportListError::Syntax),
                Some(m) => match rest {
                    Ok(ms) => Ok(seq![m] + ms),
                    Err(e) => Err(e),
                },
            }
        }
    }
}

/// Whether a byte is ASCII whitespace.
fn ascii_whitespace(c: u8) -> (r: bool)
    ensures
        r == is_ascii_ws(c),
{
    c == 32 || c == 9 || c == 10 || c == 12 || c == 13
}

/// Trims ASCII whitespace from both ends of `[start, end)`.
fn trim_ascii_range(s: &[u8], start: usize, end: usize) -> (r: (usize, usize))
    requires
        start <= end <= s@.len(),
    ensures
        r.0 == ascii_trim_start(s@, start as int, end as int),
        r.1 == ascii_trim_end(s@, r.0 as int, end as int),
        start <= r.0 <= r.1 <= end,
{
    let mut a = start;
    while a < end && ascii_whitespace(s[a])
        invariant
            start <= a <= end <= s@.len(),
            ascii_trim_start(s@, start as int, end as int) == ascii_trim_start(s@, a as int, end as int),
        decreases end - a,
    {
        a = a + 1;
    }
    let mut b = end;
    while b > a && ascii_whitespace(s[b - 1])
        invariant
            start <= a <= b <= end <= s@.len(),
            ascii_trim_end(s@, a as int, end as int) == ascii_trim_end(s@, a as int, b as int),
        decreases b - a,
    {
        b = b - 1;
    }
    (a, b)
}

impl ExportList {
    /// Adds one symbol pattern, followed by `;` unless `without_semicolon`.
    pub fn add_symbol(&mut self, symbol: &[u8], without_semicolon: bool) -> (r: Result<
        (),
        ExportListError,
    >)
        ensures
            final(self).0.cxx@ == old(self).0.cxx@,
            match spec_add_symbol(symbol@, without_semicolon) {
                None => r == Err::<(), ExportListError>(ExportListError::Syntax) && final(self).0.general@ == old(self).0.general@,
                Some(m) => r is Ok && matchers_view(final(self).0.general@) == matchers_view(
                    old(self).0.general@,
                ).push(m),
            },
    {
        proof {
            lemma_parse_name_bounds(symbol@, 0);
        }
        let (m, e) = match parse_name(symbol, 0) {
            Some(x) => x,
            None => {
                return Err(ExportListError::Syntax);
            },
        };
        if !without_semicolon {
            let p = match skip_comments_and_whitespace(symbol, e) {
                Some(p) => p,
                None => {
                    return Err(ExportListError::Syntax);
                },
            };
            if !(p < symbol.len() && symbol[p] == 59u8) {
                return Err(ExportListError::Syntax);
            }
        }
        let ghost before = self.0.general@;
        self.0.general.push(m);
        assert(matchers_view(self.0.general@) =~= matchers_view(before).push(matcher_view(m)));
        Ok(())
    }

    /// Parses Darwin's `-exported_symbols_list`: one pattern per line, with `#` starting a
    /// comment and surrounding whitespace ignored.
    pub fn parse_macho(data: &[u8]) -> (r: Result<ExportList, ExportListError>)
        ensures
            match spec_macho_lines(data@, 0, 0) {
                Err(e) => r == Err::<ExportList, ExportListError>(e),
                Ok(g) => r matches Ok(list) && matchers_view(list.0.general@) == g
                    && list.0.cxx@.len() == 0,
            },
    {
        let mut list = ExportList::new();
        let n = data.len();
        let ghost mut acc: Seq<(bool, Seq<u8>)> = Seq::empty();
        let mut start: usize = 0;
        let mut line: usize = 0;
        loop
            invariant
                start <= n,
                n == data@.len(),
                line <= start,
                list.0.cxx@.len() == 0,
                matchers_view(list.0.general@) == acc,
                spec_macho_lines(data@, 0, 0) == match spec_macho_lines(data@, start as int, line as int) {
                    Ok(rest) => Ok(acc + rest),
                    Err(e) => Err::<Seq<(bool, Seq<u8>)>, ExportListError>(e),
                },
            decreases n + 1 - start,
        {
            proof {
                crate::text::lemma_find_from(data@, start as int, 10u8);
                crate::text::lemma_find_from(data@, start as int, 35u8);
            }
            let nl = find_byte(data, start, 10u8);
            let end = match nl {
                Some(i) => i,
                None => n,
            };
            let cut = match find_byte(data, start, 35u8) {
                Some(h) => if h < end {
                    h
                } else {
                    end
                },
                None => end,
            };
            let (a, b) = trim_ascii_range(data, start, cut);
            let ghost next_rest: Result<Seq<(bool, Seq<u8>)>, ExportListError> = match nl {
                Some(i) => spec_macho_lines(data@, i + 1, line + 1),
                None => Ok(Seq::empty()),
            };
            proof {
                match nl {
                    Some(i) => {
                        assert(start < i + 1 <= data@.len());
                    },
                    None => {},
                }
            }
            if a < b {
                let symbol = vstd::slice::slice_subrange(data, a, b);
                if !is_utf8(symbol) {
                    return Err(ExportListError::InvalidUtf8 { line: line + 1 });
                }
                match list.add_symbol(symbol, true) {
                    Ok(()) => {},
                    Err(e) => {
                        return Err(e);
                    },
                }
                proof {
                    let m = spec_add_symbol(symbol@, true)->Some_0;
                    assert(spec_macho_lines(data@, start as int, line as int) == match next_rest {
                        Ok(ms) => Ok(seq![m] + ms),
                        Err(e) => Err::<Seq<(bool, Seq<u8>)>, ExportListError>(e),
                    });
                    match next_rest {
                        Ok(ms) => {
                            assert(acc + (seq![m] + ms) =~= acc.push(m) + ms);
                        },
                        Err(_) => {},
                    }
                    acc = acc.push(m);
                }
            } else {
                assert(spec_macho_lines(data@, start as int, line as int) == next_rest);
            }
            match nl {
                Some(i) => {
                    start = i + 1;
                    line = line + 1;
                },
                None => {
                    assert(acc + Seq::<(bool, Seq<u8>)>::empty() =~= acc);
                    return Ok(list);
                },
            }
        }
    }

    /// Parses an export list written in `style`.
    pub fn parse_for_style(data: &[u8], style: ExportListStyle) -> (r: Result<
        ExportList,
        ExportListError,
    >)
        ensures
            style is VersionScript ==> match spec_parse_version_script(data@) {
                None => r == Err::<ExportList, ExportListError>(ExportListError::Syntax),
                Some((g, c)) => r matches Ok(list) && matchers_view(list.0.general@) == g
                    && matchers_view(list.0.cxx@) == c,
            },
            style is MachO ==> match spec_macho_lines(data@, 0, 0) {
                Err(e) => r == Err::<ExportList, ExportListError>(e),
                Ok(g) => r matches Ok(list) && matchers_view(list.0.general@) == g
                    && list.0.cxx@.len() == 0,
            },
    {
        match style {
            ExportListStyle::VersionScript => Self::parse(data),
            ExportListStyle::MachO => Self::parse_macho(data),
        }
    }
}

} // verus!
