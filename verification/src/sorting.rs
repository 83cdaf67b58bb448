//! A stable ordering of records by an unsigned key, with the permutation that relates the
//! result to the input.
use vstd::prelude::*;

verus! {

/// A record ordered by an address-like key.
pub trait SortKey {
    /// The key.
    spec fn spec_sort_key(&self) -> u64;

    /// The key.
    fn sort_key(&self) -> (r: u64)
        ensures
            r == self.spec_sort_key(),
    ;
}

/// The keys of `s` never decrease.
pub open spec fn sorted_by_key<T: SortKey>(s: Seq<T>) -> bool {
    forall|i: int, j: int|
        0 <= i <= j < s.len() ==> (#[trigger] s[i]).spec_sort_key() <= (
        #[trigger] s[j]).spec_sort_key()
}

/// `items` ordered by key; items with equal keys keep their input order. Beside the result come
/// the input position of each result position and the result position of each input position.
pub fn sort_by_key_stable<T: SortKey + Copy>(items: &Vec<T>) -> (r: (
    Vec<T>,
    Ghost<Seq<int>>,
    Ghost<Seq<int>>,
))
    ensures
        r.0@.to_multiset() == items@.to_multiset(),
        r.0@.len() == items@.len(),
        sorted_by_key(r.0@),
        r.1@.len() == items@.len(),
        r.2@.len() == items@.len(),
        forall|k: int|
            0 <= k < r.0@.len() ==> 0 <= #[trigger] r.1@[k] < items@.len() && r.0@[k]
                == items@[r.1@[k]] && r.2@[r.1@[k]] == k,
        forall|j: int|
            0 <= j < items@.len() ==> 0 <= #[trigger] r.2@[j] < items@.len() && r.0@[r.2@[j]]
                == items@[j] && r.1@[r.2@[j]] == j,
        forall|a: int, b: int|
            0 <= a < b < r.0@.len() && r.0@[a].spec_sort_key() == r.0@[b].spec_sort_key()
                ==> #[trigger] r.1@[a] < #[trigger] r.1@[b],
{
    broadcast use vstd::seq_lib::group_to_multiset_ensures;

    let mut sorted: Vec<T> = Vec::new();
    let ghost mut perm: Seq<int> = Seq::empty();
    let ghost mut inv: Seq<int> = Seq::empty();
    let mut i: usize = 0;
    while i < items.len()
        invariant
            0 <= i <= items@.len(),
            sorted@.len() == i,
            perm.len() == i,
            inv.len() == i,
            sorted@.to_multiset() == items@.take(i as int).to_multiset(),
            sorted_by_key(sorted@),
            forall|k: int|
                0 <= k < i ==> 0 <= #[trigger] perm[k] < i && sorted@[k] == items@[perm[k]]
                    && inv[perm[k]] == k,
            forall|j: int|
                0 <= j < i ==> 0 <= #[trigger] inv[j] < i && sorted@[inv[j]] == items@[j]
                    && perm[inv[j]] == j,
            forall|a: int, b: int|
                0 <= a < b < i && sorted@[a].spec_sort_key() == sorted@[b].spec_sort_key()
                    ==> #[trigger] perm[a] < #[trigger] perm[b],
        decreases items@.len() - i,
    {
        let x = items[i];
        let key = x.sort_key();
        let mut k: usize = 0;
        while k < sorted.len() && sorted[k].sort_key() <= key
            invariant
                0 <= k <= sorted@.len(),
                key == x.spec_sort_key(),
                forall|j: int|
                    0 <= j < k ==> (#[trigger] sorted@[j]).spec_sort_key() <= x.spec_sort_key(),
            decreases sorted@.len() - k,
        {
            k = k + 1;
        }
        proof {
            if k < sorted@.len() {
                assert forall|j: int| k <= j < sorted@.len() implies (
                #[trigger] sorted@[j]).spec_sort_key() > x.spec_sort_key() by {
                    assert(sorted@[k as int].spec_sort_key() <= sorted@[j].spec_sort_key());
                }
            }
        }
        let ghost before = sorted@;
        let ghost old_perm = perm;
        let ghost old_inv = inv;
        sorted.insert(k, x);
        proof {
            perm = old_perm.insert(k as int, i as int);
            inv = Seq::new(
                (i + 1) as nat,
                |j: int|
                    if j == i {
                        k as int
                    } else if old_inv[j] >= k {
                        old_inv[j] + 1
                    } else {
                        old_inv[j]
                    },
            );
            assert(items@.take(i + 1) =~= items@.take(i as int).push(x));
            assert(sorted@ =~= before.insert(k as int, x));
            vstd::seq_lib::to_multiset_insert(before, k as int, x);
            vstd::seq_lib::to_multiset_build(items@.take(i as int), x);
            assert forall|a: int, b: int| 0 <= a <= b < sorted@.len() implies (
            #[trigger] sorted@[a]).spec_sort_key() <= (#[trigger] sorted@[b]).spec_sort_key() by {
                if a < k && b > k {
                    assert(sorted@[a] == before[a]);
                    assert(sorted@[b] == before[b - 1]);
                } else if a > k {
                    assert(sorted@[a] == before[a - 1]);
                    assert(sorted@[b] == before[b - 1]);
                } else if b < k {
                    assert(sorted@[a] == before[a]);
                    assert(sorted@[b] == before[b]);
                }
            }
            assert forall|m: int| 0 <= m < i + 1 implies 0 <= #[trigger] perm[m] < i + 1
                && sorted@[m] == items@[perm[m]] && inv[perm[m]] == m by {
                if m < k {
                    assert(perm[m] == old_perm[m]);
                } else if m > k {
                    assert(perm[m] == old_perm[m - 1]);
                }
            }
            assert forall|j: int| 0 <= j < i + 1 implies 0 <= #[trigger] inv[j] < i + 1
                && sorted@[inv[j]] == items@[j] && perm[inv[j]] == j by {
                if j < i {
                    if old_inv[j] >= k {
                        assert(sorted@[old_inv[j] + 1] == before[old_inv[j]]);
                        assert(perm[old_inv[j] + 1] == old_perm[old_inv[j]]);
                    } else {
                        assert(sorted@[old_inv[j]] == before[old_inv[j]]);
                        assert(perm[old_inv[j]] == old_perm[old_inv[j]]);
                    }
                }
            }
            assert forall|a: int, b: int|
                0 <= a < b < i + 1 && sorted@[a].spec_sort_key() == sorted@[b].spec_sort_key()
                    implies #[trigger] perm[a] < #[trigger] perm[b] by {
                if a < k && b < k {
                    assert(perm[a] == old_perm[a] && perm[b] == old_perm[b]);
                    assert(sorted@[a] == before[a] && sorted@[b] == before[b]);
                } else if a < k && b == k {
                    assert(perm[a] == old_perm[a]);
                } else if a < k && b > k {
                    assert(perm[a] == old_perm[a] && perm[b] == old_perm[b - 1]);
                    assert(sorted@[a] == before[a] && sorted@[b] == before[b - 1]);
                } else if a == k {
                    assert(sorted@[b] == before[b - 1]);
                } else {
                    assert(perm[a] == old_perm[a - 1] && perm[b] == old_perm[b - 1]);
                    assert(sorted@[a] == before[a - 1] && sorted@[b] == before[b - 1]);
                }
            }
        }
        i = i + 1;
    }
    assert(items@.take(items@.len() as int) =~= items@);
    (sorted, Ghost(perm), Ghost(inv))
}

} // verus!
