use vstd::prelude::*;
use std::collections::HashMap;

verus! {

broadcast use vstd::std_specs::hash::group_hash_axioms;

/// `s` is in strictly increasing order.
pub open spec fn strictly_increasing(s: Seq<u32>) -> bool {
    forall|j: int, k: int| 0 <= j < k < s.len() ==> #[trigger] s[j] < #[trigger] s[k]
}

/// The dense index of a set of ids: the ids in increasing order, and for each id its
/// position in that order. Each distinct id of `ids` gets one position; the
/// positions run from 0 to the number of distinct ids.
pub fn dense_index(ids: &Vec<u32>) -> (res: (Vec<u32>, HashMap<u32, usize>))
    ensures
        strictly_increasing(res.0@),
        forall|k: u32| #[trigger] res.0@.contains(k) <==> ids@.contains(k),
        forall|k: u32| #[trigger] res.1@.contains_key(k) <==> ids@.contains(k),
        forall|j: int| 0 <= j < res.0@.len() ==> #[trigger] res.1@[res.0@[j]] == j as usize,
{
    let mut sorted: Vec<u32> = Vec::new();
    for i in 0..ids.len()
        invariant
            strictly_increasing(sorted@),
            forall|k: u32| #[trigger] sorted@.contains(k) <==> ids@.take(i as int).contains(k),
    {
        let x = ids[i];
        let ghost prefix = ids@.take(i as int);
        assert(forall|k: u32| #[trigger] ids@.take(i + 1).contains(k) <==> prefix.contains(k) || k == x) by {
            assert forall|k: u32| #[trigger] ids@.take(i + 1).contains(k) implies prefix.contains(k) || k == x by {
                let j = choose|j: int| 0 <= j < i + 1 && #[trigger] ids@.take(i + 1)[j] == k;
                if j < i {
                    assert(prefix[j] == k);
                }
            }
            assert forall|k: u32| prefix.contains(k) implies #[trigger] ids@.take(i + 1).contains(k) by {
                let j = choose|j: int| 0 <= j < i && #[trigger] prefix[j] == k;
                assert(ids@.take(i + 1)[j] == k);
            }
            assert(ids@.take(i + 1)[i as int] == x);
        }
        let mut p: usize = 0;
        while p < sorted.len() && sorted[p] < x
            invariant
                p <= sorted@.len(),
                forall|j: int| 0 <= j < p ==> #[trigger] sorted@[j] < x,
            decreases sorted@.len() - p,
        {
            p = p + 1;
        }
        if p < sorted.len() && sorted[p] == x {
            assert(sorted@.contains(x));
        } else {
            let ghost old_sorted = sorted@;
            proof {
                assert forall|j: int| p <= j < old_sorted.len() implies #[trigger] old_sorted[j] > x by {
                    if j > p {
                        assert(old_sorted[p as int] < old_sorted[j]);
                    }
                }
            }
            sorted.insert(p, x);
            assert(sorted@ == old_sorted.insert(p as int, x));
            assert forall|j: int, k: int| 0 <= j < k < sorted@.len() implies #[trigger] sorted@[j] < #[trigger] sorted@[k] by {
                if k < p {
                    assert(sorted@[j] == old_sorted[j] && sorted@[k] == old_sorted[k]);
                } else if k == p {
                    assert(sorted@[j] == old_sorted[j]);
                } else if j < p {
                    assert(sorted@[j] == old_sorted[j] && sorted@[k] == old_sorted[k - 1]);
                } else if j == p {
                    assert(sorted@[k] == old_sorted[k - 1]);
                } else {
                    assert(sorted@[j] == old_sorted[j - 1] && sorted@[k] == old_sorted[k - 1]);
                }
            }
            assert forall|k: u32| #[trigger] sorted@.contains(k) <==> old_sorted.contains(k) || k == x by {
                if sorted@.contains(k) {
                    let j = choose|j: int| 0 <= j < sorted@.len() && sorted@[j] == k;
                    if j < p {
                        assert(old_sorted[j] == k);
                    } else if j > p {
                        assert(old_sorted[j - 1] == k);
                    }
                }
                if old_sorted.contains(k) {
                    let j = choose|j: int| 0 <= j < old_sorted.len() && old_sorted[j] == k;
                    if j < p {
                        assert(sorted@[j] == k);
                    } else {
                        assert(sorted@[j + 1] == k);
                    }
                }
                if k == x {
                    assert(sorted@[p as int] == x);
                }
            }
        }
    }
    assert(ids@.take(ids.len() as int) =~= ids@);
    let mut index: HashMap<u32, usize> = HashMap::new();
    for j in 0..sorted.len()
        invariant
            strictly_increasing(sorted@),
            forall|k: u32| #[trigger] index@.contains_key(k) <==> sorted@.take(j as int).contains(k),
            forall|q: int| 0 <= q < j ==> #[trigger] index@[sorted@[q]] == q as usize,
    {
        let ghost before = index@;
        index.insert(sorted[j], j);
        assert forall|k: u32| #[trigger] index@.contains_key(k) <==> sorted@.take(j + 1).contains(k) by {
            if sorted@.take(j + 1).contains(k) {
                let q = choose|q: int| 0 <= q < j + 1 && #[trigger] sorted@.take(j + 1)[q] == k;
                if q < j {
                    assert(sorted@.take(j as int)[q] == k);
                }
            }
            if sorted@.take(j as int).contains(k) {
                let q = choose|q: int| 0 <= q < j && #[trigger] sorted@.take(j as int)[q] == k;
                assert(sorted@.take(j + 1)[q] == k);
            }
            if k == sorted@[j as int] {
                assert(sorted@.take(j + 1)[j as int] == k);
            }
        }
        assert forall|q: int| 0 <= q < j + 1 implies #[trigger] index@[sorted@[q]] == q as usize by {
            if q < j {
                assert(sorted@[q] < sorted@[j as int]);
            }
        }
    }
    assert(sorted@.take(sorted.len() as int) =~= sorted@);
    (sorted, index)
}

/// The pseudo-random bucket (0 to 999) from which the initial latent factor
/// `factor` of row `row` is drawn.
pub open spec fn seed_bucket_spec(row: nat, factor: nat) -> nat {
    ((row + 1) * 1_103_515_245 + (factor + 7) * 12_345) % 1000
}

/// Computes the pseudo-random bucket of an initial latent factor.
pub fn seed_bucket(row: usize, factor: usize) -> (bucket: u64)
    requires
        (row + 1) * 1_103_515_245 + (factor + 7) * 12_345 <= u64::MAX,
    ensures
        bucket == seed_bucket_spec(row as nat, factor as nat),
        bucket < 1000,
{
    let r = row as u64 + 1;
    let f = factor as u64 + 7;
    (r * 1_103_515_245 + f * 12_345) % 1000
}

} // verus!
