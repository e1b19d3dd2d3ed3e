use vstd::prelude::*;

verus! {

/// Candidate `a` ranks before candidate `b`: a higher score, or an equal score
/// and an earlier position in the pool.
pub open spec fn ranks_before(scores: Seq<i128>, a: int, b: int) -> bool {
    scores[a] > scores[b] || (scores[a] == scores[b] && a < b)
}

/// `kept` lists distinct pool positions in ranking order.
pub open spec fn ranked_positions(scores: Seq<i128>, kept: Seq<usize>) -> bool {
    &&& forall|i: int| 0 <= i < kept.len() ==> (#[trigger] kept[i]) < scores.len()
    &&& forall|i: int, j: int|
        0 <= i < j < kept.len() ==> ranks_before(scores, #[trigger] kept[i] as int, #[trigger] kept[j] as int)
}

/// Every kept candidate ranks before every candidate of `0..n` that was not kept.
pub open spec fn dominates_rest(scores: Seq<i128>, kept: Seq<usize>, n: int) -> bool {
    forall|i: int, j: int|
        0 <= i < kept.len() && 0 <= j < n && !kept.contains(j as usize) ==> #[trigger] ranks_before(
            scores,
            kept[i] as int,
            j,
        )
}

pub open spec fn min_nat(a: int, b: int) -> int {
    if a <= b {
        a
    } else {
        b
    }
}

/// The stable top-`width` of a candidate pool: the positions of the `width`
/// best scores (all of them when the pool is smaller), best first, ties kept
/// in pool order.
pub fn stable_top(scores: &Vec<i128>, width: usize) -> (kept: Vec<usize>)
    ensures
        kept@.len() == min_nat(width as int, scores@.len() as int),
        ranked_positions(scores@, kept@),
        dominates_rest(scores@, kept@, scores@.len() as int),
{
    let n = scores.len();
    let mut kept: Vec<usize> = Vec::new();
    let mut k: usize = 0;
    while k < n
        invariant
            n == scores@.len(),
            k <= n,
            kept@.len() == min_nat(width as int, k as int),
            forall|i: int| 0 <= i < kept@.len() ==> (#[trigger] kept@[i]) < k,
            ranked_positions(scores@, kept@),
            dominates_rest(scores@, kept@, k as int),
            kept@.len() == k ==> forall|j: int| 0 <= j < k ==> #[trigger] kept@.contains(j as usize),
        decreases n - k,
    {
        // position of the first kept candidate that scores below candidate k
        let mut p: usize = 0;
        while p < kept.len() && scores[kept[p]] >= scores[k]
            invariant
                n == scores@.len(),
                k < n,
                p <= kept@.len(),
                forall|i: int| 0 <= i < kept@.len() ==> (#[trigger] kept@[i]) < k,
                forall|i: int| 0 <= i < p ==> scores@[#[trigger] kept@[i] as int] >= scores@[k as int],
            decreases kept@.len() - p,
        {
            p = p + 1;
        }
        let ghost old_kept = kept@;
        proof {
            // candidates from p on score below candidate k
            assert forall|i: int| p <= i < old_kept.len() implies scores@[#[trigger] old_kept[i] as int]
                < scores@[k as int] by {
                if i > p {
                    assert(ranks_before(scores@, old_kept[p as int] as int, old_kept[i] as int));
                }
            }
        }
        if p < width {
            kept.insert(p, k);
            proof {
                assert forall|i: int| 0 <= i < kept@.len() implies (#[trigger] kept@[i]) < k + 1 by {
                    if i < p {
                        assert(kept@[i] == old_kept[i]);
                    } else if i > p {
                        assert(kept@[i] == old_kept[i - 1]);
                    }
                }
                assert forall|i: int, j: int| 0 <= i < j < kept@.len() implies ranks_before(
                    scores@,
                    #[trigger] kept@[i] as int,
                    #[trigger] kept@[j] as int,
                ) by {
                    if j < p {
                        assert(kept@[i] == old_kept[i] && kept@[j] == old_kept[j]);
                    } else if j == p {
                        assert(kept@[i] == old_kept[i]);
                    } else if i < p {
                        assert(kept@[i] == old_kept[i] && kept@[j] == old_kept[j - 1]);
                    } else if i == p {
                        assert(kept@[j] == old_kept[j - 1]);
                    } else {
                        assert(kept@[i] == old_kept[i - 1] && kept@[j] == old_kept[j - 1]);
                    }
                }
                if kept@.len() == k + 1 {
                    assert forall|j: int| 0 <= j < k + 1 implies #[trigger] kept@.contains(j as usize) by {
                        if j == k {
                            assert(kept@[p as int] == k);
                        } else {
                            assert(old_kept.contains(j as usize));
                            let q = choose|q: int| 0 <= q < old_kept.len() && old_kept[q] == j as usize;
                            if q < p {
                                assert(kept@[q] == old_kept[q]);
                            } else {
                                assert(kept@[q + 1] == old_kept[q]);
                            }
                        }
                    }
                }
                assert forall|i: int, j: int|
                    0 <= i < kept@.len() && 0 <= j < k + 1 && !kept@.contains(
                        j as usize,
                    ) implies #[trigger] ranks_before(scores@, kept@[i] as int, j) by {
                    assert(j != k) by {
                        assert(kept@[p as int] == k);
                    }
                    assert(!old_kept.contains(j as usize)) by {
                        if old_kept.contains(j as usize) {
                            let q = choose|q: int| 0 <= q < old_kept.len() && old_kept[q] == j as usize;
                            if q < p {
                                assert(kept@[q] == old_kept[q]);
                            } else {
                                assert(kept@[q + 1] == old_kept[q]);
                            }
                        }
                    }
                    if i < p {
                        assert(kept@[i] == old_kept[i]);
                    } else if i > p {
                        assert(kept@[i] == old_kept[i - 1]);
                    } else {
                        // k itself: old kept candidates are all in the ranking, so
                        // j < width, or some kept candidate scores below k
                        if p < old_kept.len() {
                            assert(ranks_before(scores@, old_kept[p as int] as int, j));
                        } else {
                            assert(old_kept.len() == k);
                            assert(old_kept.contains(j as usize));
                        }
                    }
                }
            }
            if kept.len() > width {
                let ghost before_pop = kept@;
                kept.pop();
                proof {
                    let last = before_pop[before_pop.len() - 1];
                    assert forall|i: int, j: int|
                        0 <= i < kept@.len() && 0 <= j < k + 1 && !kept@.contains(
                            j as usize,
                        ) implies #[trigger] ranks_before(scores@, kept@[i] as int, j) by {
                        assert(kept@[i] == before_pop[i]);
                        if j as usize == last {
                            assert(ranks_before(scores@, before_pop[i] as int, last as int));
                        } else {
                            assert(!before_pop.contains(j as usize)) by {
                                if before_pop.contains(j as usize) {
                                    let q = choose|q: int|
                                        0 <= q < before_pop.len() && before_pop[q] == j as usize;
                                    if q < kept@.len() {
                                        assert(kept@[q] == before_pop[q]);
                                    }
                                }
                            }
                        }
                    }
                }
            }
        } else {
            proof {
                assert forall|i: int, j: int|
                    0 <= i < kept@.len() && 0 <= j < k + 1 && !kept@.contains(
                        j as usize,
                    ) implies #[trigger] ranks_before(scores@, kept@[i] as int, j) by {
                    if j == k {
                        assert(scores@[kept@[i] as int] >= scores@[k as int]);
                    }
                }
            }
        }
        k = k + 1;
    }
    kept
}

} // verus!
