use vstd::prelude::*;
use crate::color::{normal_color_list, normal_colors, PuyoColor};
use crate::grid::{height_at, is_open, with_cell, Grid};

verus! {

/// A hypothetical block on top of an open column, and the grid it makes.
pub struct Probe {
    pub column: usize,
    pub color: PuyoColor,
    pub grid: Grid,
}

/// Some probe of `ps` is on column x with the color at position c of `normal_colors`.
pub open spec fn has_probe(ps: Seq<Probe>, x: int, c: int) -> bool {
    exists|k: int| 0 <= k < ps.len() && (#[trigger] ps[k]).column == x && k % 4 == c
}

/// Probe `a` is listed before probe `b`: by column, then by color order.
pub open spec fn probe_before(a: (int, int), b: (int, int)) -> bool {
    a.0 < b.0 || (a.0 == b.0 && a.1 < b.1)
}

/// `ps` lists every one-block hypothetical on `g`: for each open column and
/// each normal color, the grid with that block on top; by column, then in
/// the order of `normal_colors`.
pub open spec fn placements_of(g: Seq<PuyoColor>, ps: Seq<Probe>) -> bool {
    &&& ps.len() % 4 == 0
    &&& forall|k: int|
        0 <= k < ps.len() ==> {
            let p = #[trigger] ps[k];
            &&& 1 <= p.column <= 6
            &&& is_open(g, p.column as int)
            &&& p.color == normal_colors()[k % 4]
            &&& p.grid.wf()
            &&& p.grid@ == with_cell(g, p.column as int, height_at(g, p.column as int) + 1, p.color)
        }
    &&& forall|k: int, l: int| 0 <= k < l < ps.len() ==> probe_before(
        (ps[k].column as int, k % 4),
        (ps[l].column as int, l % 4),
    )
    &&& forall|x: int, c: int| 1 <= x <= 6 && is_open(g, x) && 0 <= c < 4 ==> #[trigger] has_probe(ps, x, c)
}

/// Every one-block hypothetical on `g`: for each open column (stack below
/// the ceiling) and each normal color, the grid with that block on top.
/// Listed by column, then in the order of `normal_colors`.
pub fn hypothetical_placements(g: &Grid) -> (ps: Vec<Probe>)
    requires
        g.wf(),
    ensures
        ps@.len() % 4 == 0,
        forall|k: int|
            0 <= k < ps@.len() ==> {
                let p = #[trigger] ps@[k];
                &&& 1 <= p.column <= 6
                &&& is_open(g@, p.column as int)
                &&& p.color == normal_colors()[k % 4]
                &&& p.grid.wf()
                &&& p.grid@ == with_cell(g@, p.column as int, height_at(g@, p.column as int) + 1, p.color)
            },
        forall|k: int, l: int| 0 <= k < l < ps@.len() ==> probe_before(
            (ps@[k].column as int, k % 4),
            (ps@[l].column as int, l % 4),
        ),
        forall|x: int, c: int|
            1 <= x <= 6 && is_open(g@, x) && 0 <= c < 4 ==> #[trigger] has_probe(ps@, x, c),
        placements_of(g@, ps@),
{
    let colors = normal_color_list();
    let mut ps: Vec<Probe> = Vec::new();
    let mut x: usize = 1;
    while x <= 6
        invariant
            g.wf(),
            colors@ == normal_colors(),
            1 <= x <= 7,
            ps@.len() % 4 == 0,
            forall|k: int|
                0 <= k < ps@.len() ==> {
                    let p = #[trigger] ps@[k];
                    &&& 1 <= p.column < x
                    &&& is_open(g@, p.column as int)
                    &&& p.color == normal_colors()[k % 4]
                    &&& p.grid.wf()
                    &&& p.grid@ == with_cell(g@, p.column as int, height_at(g@, p.column as int) + 1, p.color)
                },
            forall|k: int, l: int| 0 <= k < l < ps@.len() ==> probe_before(
                (ps@[k].column as int, k % 4),
                (ps@[l].column as int, l % 4),
            ),
            forall|y: int, c: int|
                1 <= y < x && is_open(g@, y) && 0 <= c < 4 ==> #[trigger] has_probe(ps@, y, c),
        decreases 7 - x,
    {
        if g.is_open_column(x) {
            let ghost start = ps@.len();
            let mut c: usize = 0;
            while c < 4
                invariant
                    g.wf(),
                    colors@ == normal_colors(),
                    1 <= x <= 6,
                    is_open(g@, x as int),
                    c <= 4,
                    start % 4 == 0,
                    ps@.len() == start + c,
                    forall|k: int|
                        0 <= k < ps@.len() ==> {
                            let p = #[trigger] ps@[k];
                            &&& 1 <= p.column <= x
                            &&& is_open(g@, p.column as int)
                            &&& p.color == normal_colors()[k % 4]
                            &&& p.grid.wf()
                            &&& p.grid@ == with_cell(g@, p.column as int, height_at(g@, p.column as int) + 1, p.color)
                        },
                    forall|k: int| 0 <= k < start ==> (#[trigger] ps@[k]).column < x,
                    forall|k: int| start <= k < ps@.len() ==> (#[trigger] ps@[k]).column == x,
                    forall|k: int, l: int| 0 <= k < l < ps@.len() ==> probe_before(
                        (ps@[k].column as int, k % 4),
                        (ps@[l].column as int, l % 4),
                    ),
                    forall|y: int, cc: int|
                        1 <= y < x && is_open(g@, y) && 0 <= cc < 4 ==> #[trigger] has_probe(ps@, y, cc),
                    forall|cc: int|
                        0 <= cc < c ==> #[trigger] has_probe(ps@, x as int, cc),
                decreases 4 - c,
            {
                let color = colors[c];
                let pg = g.place_on_top(x, color);
                let ghost prev = ps@;
                assert((start + c) % 4 == c as int);
                ps.push(Probe { column: x, color, grid: pg });
                proof {
                    assert forall|k: int, l: int| 0 <= k < l < ps@.len() implies probe_before(
                        (ps@[k].column as int, k % 4),
                        (ps@[l].column as int, l % 4),
                    ) by {
                        if l == ps@.len() - 1 && k >= start {
                            assert(k % 4 == k - start) by {
                                assert(k - start < 4);
                            }
                        }
                    }
                    assert forall|y: int, cc: int|
                        1 <= y < x && is_open(g@, y) && 0 <= cc < 4 implies #[trigger] has_probe(ps@, y, cc) by {
                        assert(has_probe(prev, y, cc));
                        let k = choose|k: int| 0 <= k < prev.len() && (#[trigger] prev[k]).column == y && k % 4 == cc;
                        assert(ps@[k] == prev[k]);
                        assert(ps@[k].column == y && k % 4 == cc);
                    }
                    assert forall|cc: int|
                        0 <= cc < c + 1 implies #[trigger] has_probe(ps@, x as int, cc) by {
                        if cc < c {
                            assert(has_probe(prev, x as int, cc));
                            let k = choose|k: int| 0 <= k < prev.len() && (#[trigger] prev[k]).column == x && k % 4 == cc;
                            assert(ps@[k] == prev[k]);
                            assert(ps@[k].column == x && k % 4 == cc);
                        } else {
                            assert(ps@[start + c].column == x && (start + c) % 4 == cc);
                        }
                    }
                }
                c = c + 1;
            }
        }
        x = x + 1;
    }
    ps
}

/// The second level of hypotheticals: for each one-block placement that
/// fired nothing (`first_scores[i] == 0`), every one-block placement on top
/// of its grid; none under a placement that fired.
pub fn second_level(first: &Vec<Probe>, first_scores: &Vec<u32>) -> (r: Vec<Vec<Probe>>)
    requires
        first_scores@.len() == first@.len(),
        forall|i: int| 0 <= i < first@.len() ==> (#[trigger] first@[i]).grid.wf(),
    ensures
        r@.len() == first@.len(),
        forall|i: int| 0 <= i < r@.len() && first_scores@[i] != 0 ==> (#[trigger] r@[i])@.len() == 0,
        forall|i: int| 0 <= i < r@.len() && first_scores@[i] == 0 ==> placements_of(first@[i].grid@, (#[trigger] r@[i])@),
{
    let mut r: Vec<Vec<Probe>> = Vec::new();
    let mut i: usize = 0;
    while i < first.len()
        invariant
            first_scores@.len() == first@.len(),
            forall|j: int| 0 <= j < first@.len() ==> (#[trigger] first@[j]).grid.wf(),
            i <= first@.len(),
            r@.len() == i,
            forall|j: int| 0 <= j < i && first_scores@[j] != 0 ==> (#[trigger] r@[j])@.len() == 0,
            forall|j: int| 0 <= j < i && first_scores@[j] == 0 ==> placements_of(first@[j].grid@, (#[trigger] r@[j])@),
        decreases first@.len() - i,
    {
        let next = if first_scores[i] == 0 {
            hypothetical_placements(&first[i].grid)
        } else {
            Vec::new()
        };
        r.push(next);
        i = i + 1;
    }
    r
}

/// `r` bounds every score observed: each one-block score, and each two-block
/// score under a one-block placement that fired nothing.
pub open spec fn bounds_observed(first: Seq<u32>, second: Seq<Vec<u32>>, r: int) -> bool {
    &&& forall|i: int| 0 <= i < first.len() ==> #[trigger] first[i] <= r
    &&& forall|i: int, j: int|
        0 <= i < first.len() && first[i] == 0 && 0 <= j < second[i]@.len() ==> #[trigger] second[i]@[j] <= r
}

/// `r` is one of the scores observed.
pub open spec fn observed(first: Seq<u32>, second: Seq<Vec<u32>>, r: int) -> bool {
    ||| exists|i: int| 0 <= i < first.len() && #[trigger] first[i] == r
    ||| exists|i: int, j: int|
        0 <= i < first.len() && first[i] == 0 && 0 <= j < second[i]@.len() && #[trigger] second[i]@[j] == r
}

/// The chain potential: the best score observed, 0 when none fired.
pub open spec fn is_potential(first: Seq<u32>, second: Seq<Vec<u32>>, r: int) -> bool {
    bounds_observed(first, second, r) && (r == 0 || observed(first, second, r))
}

/// Combines the engine's scores for the hypotheticals of a grid: `first[i]`
/// is the score of the i-th one-block placement, `second[i]` the scores of
/// the one-block placements on top of it (read only where `first[i]` is 0).
pub fn best_potential(first: &Vec<u32>, second: &Vec<Vec<u32>>) -> (r: u32)
    requires
        second@.len() == first@.len(),
    ensures
        is_potential(first@, second@, r as int),
{
    let mut best: u32 = 0;
    let mut i: usize = 0;
    while i < first.len()
        invariant
            second@.len() == first@.len(),
            i <= first@.len(),
            bounds_observed(first@.subrange(0, i as int), second@.subrange(0, i as int), best as int),
            best == 0 || observed(first@.subrange(0, i as int), second@.subrange(0, i as int), best as int),
        decreases first@.len() - i,
    {
        let ghost f0 = first@.subrange(0, i as int);
        let ghost s0 = second@.subrange(0, i as int);
        let ghost f1 = first@.subrange(0, i + 1);
        let ghost s1 = second@.subrange(0, i + 1);
        let ghost before = best;
        if first[i] > best {
            best = first[i];
        }
        let ghost mid = best;
        if first[i] == 0 {
            let inner = &second[i];
            let mut j: usize = 0;
            while j < inner.len()
                invariant
                    j <= inner@.len(),
                    mid <= best,
                    forall|q: int| 0 <= q < j ==> #[trigger] inner@[q] <= best,
                    best == mid || exists|q: int| 0 <= q < j && #[trigger] inner@[q] == best,
                decreases inner@.len() - j,
            {
                if inner[j] > best {
                    best = inner[j];
                }
                j = j + 1;
            }
        }
        proof {
            assert(f1 =~= f0.push(first@[i as int]));
            assert(s1 =~= s0.push(second@[i as int]));
            assert forall|a: int| 0 <= a < f1.len() implies #[trigger] f1[a] <= best by {
                if a < i {
                    assert(f1[a] == f0[a]);
                }
            }
            assert forall|a: int, b: int|
                0 <= a < f1.len() && f1[a] == 0 && 0 <= b < s1[a]@.len() implies #[trigger] s1[a]@[b] <= best by {
                if a < i {
                    assert(f1[a] == f0[a] && s1[a] == s0[a]);
                }
            }
            if best != 0 {
                if best == before {
                    if observed(f0, s0, best as int) {
                        if exists|a: int| 0 <= a < f0.len() && #[trigger] f0[a] == best {
                            let a = choose|a: int| 0 <= a < f0.len() && #[trigger] f0[a] == best;
                            assert(f1[a] == f0[a]);
                        } else {
                            let (a, b) = choose|a: int, b: int|
                                0 <= a < f0.len() && f0[a] == 0 && 0 <= b < s0[a]@.len() && #[trigger] s0[a]@[b] == best;
                            assert(f1[a] == f0[a] && s1[a] == s0[a]);
                            assert(s1[a]@[b] == best);
                        }
                    }
                } else if best == mid {
                    assert(f1[i as int] == best);
                } else {
                    let q = choose|q: int| 0 <= q < second@[i as int]@.len() && #[trigger] second@[i as int]@[q] == best;
                    assert(s1[i as int]@[q] == best);
                }
            }
        }
        i = i + 1;
    }
    assert(first@.subrange(0, first@.len() as int) =~= first@);
    assert(second@.subrange(0, second@.len() as int) =~= second@);
    best
}

/// More hypotheticals never lower the potential. When a grid gains an open
/// column, every one-block placement it had is still there with the same
/// score (`f` says where), and each keeps every two-block placement it had
/// (`h` says where): the potential of the grid with the extra column is at
/// least the potential without it.
pub proof fn lemma_potential_monotone(
    first_a: Seq<u32>,
    second_a: Seq<Vec<u32>>,
    first_b: Seq<u32>,
    second_b: Seq<Vec<u32>>,
    f: spec_fn(int) -> int,
    h: spec_fn(int, int) -> int,
    ra: int,
    rb: int,
)
    requires
        second_a.len() == first_a.len(),
        second_b.len() == first_b.len(),
        forall|i: int|
            0 <= i < first_a.len() ==> 0 <= #[trigger] f(i) < first_b.len() && first_b[f(i)] == first_a[i],
        forall|i: int, k: int|
            0 <= i < first_a.len() && 0 <= k < second_a[i]@.len() ==> 0 <= #[trigger] h(i, k) < second_b[f(i)]@.len()
                && second_b[f(i)]@[h(i, k)] == second_a[i]@[k],
        is_potential(first_a, second_a, ra),
        is_potential(first_b, second_b, rb),
    ensures
        ra <= rb,
{
    if ra != 0 {
        if exists|i: int| 0 <= i < first_a.len() && #[trigger] first_a[i] == ra {
            let i = choose|i: int| 0 <= i < first_a.len() && #[trigger] first_a[i] == ra;
            assert(0 <= f(i) < first_b.len());
            assert(first_b[f(i)] <= rb);
        } else {
            let (i, k) = choose|i: int, k: int|
                0 <= i < first_a.len() && first_a[i] == 0 && 0 <= k < second_a[i]@.len() && #[trigger] second_a[i]@[k] == ra;
            assert(0 <= f(i) < first_b.len());
            assert(0 <= h(i, k) < second_b[f(i)]@.len());
            assert(first_b[f(i)] == 0);
            assert(second_b[f(i)]@[h(i, k)] <= rb);
        }
    }
}

} // verus!
