//! Ranking of similarity scores.
//!
//! Scores are IEEE-754 single-precision values, handled here by their bit
//! patterns. `score_key` maps a pattern to an integer so that finite values
//! compare as the floats do (`-0.0` and `+0.0` equal), and every non-finite
//! value (an infinity or a NaN) sorts below every finite one.
use vstd::prelude::*;

verus! {

/// Bit patterns with an exponent field of all ones are the non-finite values.
pub open spec fn is_finite_bits(bits: u32) -> bool {
    (bits as int / 0x80_0000) % 256 != 255
}

/// Order key of a score: higher key, better score; non-finite scores get 0.
pub open spec fn score_key(bits: u32) -> int {
    let magnitude = bits as int % 0x8000_0000;
    if !is_finite_bits(bits) {
        0
    } else if bits as int >= 0x8000_0000 {
        0x8000_0000 - magnitude
    } else {
        0x8000_0000 + magnitude
    }
}

/// Record `a` comes before record `b`: a higher score, or an equal score
/// and an earlier position in the partition.
pub open spec fn ranks_before(scores: Seq<u32>, a: int, b: int) -> bool {
    ||| score_key(scores[a]) > score_key(scores[b])
    ||| (score_key(scores[a]) == score_key(scores[b]) && a < b)
}

pub open spec fn min_len(n: nat, len: nat) -> nat {
    if n < len {
        n
    } else {
        len
    }
}

/// Indices into `scores`, strictly ordered by `ranks_before`.
pub open spec fn is_ranked(scores: Seq<u32>, picked: Seq<usize>) -> bool {
    &&& forall|i: int| 0 <= i < picked.len() ==> #[trigger] picked[i] < scores.len()
    &&& forall|i: int, j: int|
        0 <= i < j < picked.len() ==> ranks_before(
            scores,
            #[trigger] picked[i] as int,
            #[trigger] picked[j] as int,
        )
}

/// `picked` holds the `n` best positions of `scores` (all of them when there
/// are fewer), best first, ties in partition order.
pub open spec fn is_top_ranking(scores: Seq<u32>, picked: Seq<usize>, n: nat) -> bool {
    &&& picked.len() == min_len(n, scores.len())
    &&& is_ranked(scores, picked)
    &&& forall|i: int, k: int|
        0 <= i < picked.len() && 0 <= k < scores.len() && !picked.contains(k as usize)
            ==> #[trigger] ranks_before(scores, picked[i] as int, k)
}

/// The order key of a score.
pub fn score_order_key(bits: u32) -> (r: u64)
    ensures
        r as int == score_key(bits),
{
    let magnitude = bits % 0x8000_0000;
    if (bits / 0x80_0000) % 256 == 255 {
        0
    } else if bits >= 0x8000_0000 {
        0x8000_0000u64 - magnitude as u64
    } else {
        0x8000_0000u64 + magnitude as u64
    }
}

/// Positions of the `top_n` best scores, best first; equal scores keep their
/// relative order, non-finite scores come last.
pub fn top_indices(scores: &Vec<u32>, top_n: usize) -> (r: Vec<usize>)
    ensures
        is_top_ranking(scores@, r@, top_n as nat),
{
    let n = scores.len();
    let mut sorted: Vec<usize> = Vec::new();
    let mut i: usize = 0;
    while i < n
        invariant
            n == scores.len(),
            i <= n,
            sorted.len() == i,
            is_ranked(scores@, sorted@),
            forall|q: int| 0 <= q < sorted.len() ==> #[trigger] sorted[q] < i,
            forall|k: usize| k < i ==> sorted@.contains(k),
        decreases n - i,
    {
        let key = score_order_key(scores[i]);
        let mut p: usize = 0;
        while p < sorted.len() && score_order_key(scores[sorted[p]]) >= key
            invariant
                n == scores.len(),
                i < n,
                key == score_key(scores@[i as int]),
                sorted.len() == i,
                is_ranked(scores@, sorted@),
                forall|q: int| 0 <= q < sorted.len() ==> #[trigger] sorted[q] < i,
                p <= sorted.len(),
                forall|q: int| 0 <= q < p ==> score_key(scores@[#[trigger] sorted[q] as int]) >= key,
            decreases sorted.len() - p,
        {
            p += 1;
        }
        proof {
            assert forall|q: int| p <= q < sorted.len() implies score_key(
                scores@[#[trigger] sorted[q] as int],
            ) < key by {
                if q > p {
                    assert(ranks_before(scores@, sorted[p as int] as int, sorted[q] as int));
                }
            }
        }
        let ghost before = sorted@;
        sorted.insert(p, i);
        proof {
            assert(sorted@ == before.insert(p as int, i));
            assert forall|a: int, b: int| 0 <= a < b < sorted.len() implies ranks_before(
                scores@,
                #[trigger] sorted[a] as int,
                #[trigger] sorted[b] as int,
            ) by {
                if b < p {
                    assert(sorted[a] == before[a] && sorted[b] == before[b]);
                } else if b == p {
                    assert(sorted[a] == before[a]);
                } else if a < p {
                    assert(sorted[a] == before[a] && sorted[b] == before[b - 1]);
                    assert(ranks_before(scores@, before[a] as int, before[b - 1] as int));
                } else if a == p {
                    assert(sorted[b] == before[b - 1]);
                } else {
                    assert(sorted[a] == before[a - 1] && sorted[b] == before[b - 1]);
                    assert(ranks_before(scores@, before[a - 1] as int, before[b - 1] as int));
                }
            }
            assert forall|q: int| 0 <= q < sorted.len() implies #[trigger] sorted[q] < i + 1 by {
                if q < p {
                    assert(sorted[q] == before[q]);
                } else if q > p {
                    assert(sorted[q] == before[q - 1]);
                }
            }
            assert forall|k: usize| k < i + 1 implies sorted@.contains(k) by {
                if k == i {
                    assert(sorted[p as int] == i);
                } else {
                    assert(before.contains(k));
                    let q = choose|q: int| 0 <= q < before.len() && before[q] == k;
                    if q < p {
                        assert(sorted[q] == k);
                    } else {
                        assert(sorted[q + 1] == k);
                    }
                }
            }
        }
        i += 1;
    }
    let count = if top_n < n {
        top_n
    } else {
        n
    };
    let ghost full = sorted@;
    sorted.truncate(count);
    proof {
        assert(sorted@ == full.subrange(0, count as int));
        assert forall|a: int, k: int|
            0 <= a < sorted.len() && 0 <= k < scores.len() && !sorted@.contains(
                k as usize,
            ) implies #[trigger] ranks_before(scores@, sorted[a] as int, k) by {
            assert(full.contains(k as usize));
            let q = choose|q: int| 0 <= q < full.len() && full[q] == k as usize;
            if q < count {
                assert(sorted[q] == k as usize);
            }
            assert(ranks_before(scores@, full[a] as int, full[q] as int));
        }
    }
    sorted
}

proof fn lemma_ranking_prefix_agrees(scores: Seq<u32>, p1: Seq<usize>, p2: Seq<usize>, n: nat, k: int)
    requires
        is_top_ranking(scores, p1, n),
        is_top_ranking(scores, p2, n),
        0 <= k <= p1.len(),
    ensures
        forall|i: int| 0 <= i < k ==> p1[i] == p2[i],
    decreases k,
{
    if k > 0 {
        lemma_ranking_prefix_agrees(scores, p1, p2, n, k - 1);
        let i = k - 1;
        let a = p1[i];
        let b = p2[i];
        if a != b {
            if p2.contains(a) {
                let j = choose|j: int| 0 <= j < p2.len() && p2[j] == a;
                if j < i {
                    assert(p1[j] == a);
                    assert(ranks_before(scores, p1[j] as int, p1[i] as int));
                }
                assert(j > i);
                assert(ranks_before(scores, p2[i] as int, p2[j] as int));
            } else {
                assert(ranks_before(scores, p2[i] as int, a as int));
            }
            if p1.contains(b) {
                let j = choose|j: int| 0 <= j < p1.len() && p1[j] == b;
                if j < i {
                    assert(p2[j] == b);
                    assert(ranks_before(scores, p2[j] as int, p2[i] as int));
                }
                assert(j > i);
                assert(ranks_before(scores, p1[i] as int, p1[j] as int));
            } else {
                assert(ranks_before(scores, p1[i] as int, b as int));
            }
        }
    }
}

/// There is one top ranking of given scores and size: whatever meets
/// `is_top_ranking` is the same sequence.
pub proof fn lemma_top_ranking_unique(scores: Seq<u32>, p1: Seq<usize>, p2: Seq<usize>, n: nat)
    requires
        is_top_ranking(scores, p1, n),
        is_top_ranking(scores, p2, n),
    ensures
        p1 == p2,
{
    lemma_ranking_prefix_agrees(scores, p1, p2, n, p1.len() as int);
    assert(p1 =~= p2);
}

} // verus!
