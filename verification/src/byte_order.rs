//! The byte-wise order of byte strings, in which a proper prefix comes first: the order of a
//! map keyed by byte strings.
use vstd::prelude::*;

verus! {

/// Whether `a` sorts before `b`: at the first differing byte it is smaller, or it is a proper
/// prefix of `b`.
pub open spec fn bytes_before(a: Seq<u8>, b: Seq<u8>) -> bool
    decreases a.len(),
{
    if a.len() == 0 {
        b.len() > 0
    } else if b.len() == 0 {
        false
    } else if a[0] != b[0] {
        a[0] < b[0]
    } else {
        bytes_before(a.subrange(1, a.len() as int), b.subrange(1, b.len() as int))
    }
}

/// No string sorts before itself, and of two strings at most one sorts before the other.
pub proof fn lemma_bytes_before_strict(a: Seq<u8>, b: Seq<u8>)
    ensures
        !bytes_before(a, a),
        !(bytes_before(a, b) && bytes_before(b, a)),
    decreases a.len(),
{
    if a.len() > 0 && b.len() > 0 {
        lemma_bytes_before_strict(a.subrange(1, a.len() as int), b.subrange(1, b.len() as int));
    }
    if a.len() > 0 {
        lemma_bytes_before_strict(a.subrange(1, a.len() as int), a.subrange(1, a.len() as int));
    }
}

/// Of two different strings, one sorts before the other.
pub proof fn lemma_bytes_before_total(a: Seq<u8>, b: Seq<u8>)
    ensures
        a != b ==> bytes_before(a, b) || bytes_before(b, a),
    decreases a.len(),
{
    if a.len() > 0 && b.len() > 0 {
        let (ta, tb) = (a.subrange(1, a.len() as int), b.subrange(1, b.len() as int));
        lemma_bytes_before_total(ta, tb);
        if a[0] == b[0] && ta == tb {
            assert(a =~= seq![a[0]] + ta);
            assert(b =~= seq![b[0]] + tb);
        }
    } else if a.len() == 0 && b.len() == 0 {
        assert(a =~= b);
    }
}

/// The order is transitive.
pub proof fn lemma_bytes_before_transitive(a: Seq<u8>, b: Seq<u8>, c: Seq<u8>)
    requires
        bytes_before(a, b),
        bytes_before(b, c),
    ensures
        bytes_before(a, c),
    decreases a.len(),
{
    if a.len() > 0 && b.len() > 0 && c.len() > 0 && a[0] == b[0] && b[0] == c[0] {
        lemma_bytes_before_transitive(
            a.subrange(1, a.len() as int),
            b.subrange(1, b.len() as int),
            c.subrange(1, c.len() as int),
        );
    }
}

/// Comparing from position `i` on decides the order of strings that agree before it.
proof fn lemma_bytes_before_skip(a: Seq<u8>, b: Seq<u8>, i: int)
    requires
        0 <= i <= a.len(),
        i <= b.len(),
        a.subrange(0, i) == b.subrange(0, i),
    ensures
        bytes_before(a, b) == bytes_before(a.subrange(i, a.len() as int), b.subrange(i, b.len() as int)),
    decreases i,
{
    if i > 0 {
        assert(a[0] == a.subrange(0, i)[0]);
        assert(b[0] == b.subrange(0, i)[0]);
        let (ta, tb) = (a.subrange(1, a.len() as int), b.subrange(1, b.len() as int));
        assert(ta.subrange(0, i - 1) =~= a.subrange(0, i).subrange(1, i));
        assert(tb.subrange(0, i - 1) =~= b.subrange(0, i).subrange(1, i));
        lemma_bytes_before_skip(ta, tb, i - 1);
        assert(ta.subrange(i - 1, ta.len() as int) =~= a.subrange(i, a.len() as int));
        assert(tb.subrange(i - 1, tb.len() as int) =~= b.subrange(i, b.len() as int));
    } else {
        assert(a.subrange(0, a.len() as int) =~= a);
        assert(b.subrange(0, b.len() as int) =~= b);
    }
}

/// How two byte strings are ordered: less, equal or greater.
#[derive(Debug, Clone, Copy, PartialEq, Eq)]
pub enum ByteOrder {
    Before,
    Same,
    After,
}

/// The order of `a` and `b`.
pub fn byte_order(a: &[u8], b: &[u8]) -> (r: ByteOrder)
    ensures
        r == ByteOrder::Same <==> a@ == b@,
        r == ByteOrder::Before <==> bytes_before(a@, b@),
        r == ByteOrder::After <==> bytes_before(b@, a@),
{
    proof {
        lemma_bytes_before_strict(a@, b@);
        lemma_bytes_before_strict(a@, a@);
        lemma_bytes_before_total(a@, b@);
    }
    let mut i: usize = 0;
    while i < a.len() && i < b.len() && a[i] == b[i]
        invariant
            0 <= i <= a@.len(),
            i <= b@.len(),
            a@.subrange(0, i as int) == b@.subrange(0, i as int),
        decreases a@.len() - i,
    {
        assert(a@.subrange(0, i + 1) =~= a@.subrange(0, i as int).push(a@[i as int]));
        assert(b@.subrange(0, i + 1) =~= b@.subrange(0, i as int).push(b@[i as int]));
        i = i + 1;
    }
    proof {
        lemma_bytes_before_skip(a@, b@, i as int);
        lemma_bytes_before_skip(b@, a@, i as int);
    }
    let ghost ta = a@.subrange(i as int, a@.len() as int);
    let ghost tb = b@.subrange(i as int, b@.len() as int);
    if i < a.len() && i < b.len() {
        assert(ta[0] == a@[i as int] && tb[0] == b@[i as int]);
        if a[i] < b[i] {
            ByteOrder::Before
        } else {
            ByteOrder::After
        }
    } else if i == a.len() && i == b.len() {
        assert(a@ =~= a@.subrange(0, i as int));
        assert(b@ =~= b@.subrange(0, i as int));
        ByteOrder::Same
    } else if i == a.len() {
        assert(ta.len() == 0 && tb.len() > 0);
        ByteOrder::Before
    } else {
        assert(tb.len() == 0 && ta.len() > 0);
        ByteOrder::After
    }
}

} // verus!
