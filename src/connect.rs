use vstd::prelude::*;
use crate::color::PuyoColor;
use crate::grid::{cell_at, cell_index, in_field, lemma_index_in_range, lemma_index_injective, Grid};

verus! {

/// Which cells a group may hold.
#[derive(Clone, Copy, Debug, PartialEq, Eq, Structural)]
pub enum GroupKind {
    /// Cells of this one color.
    SameColor(PuyoColor),
    /// Cells of any of the four normal colors.
    AnyNormal,
}

pub open spec fn member(g: Seq<PuyoColor>, k: GroupKind, x: int, y: int) -> bool {
    in_field(x, y) && match k {
        GroupKind::SameColor(c) => cell_at(g, x, y) == c,
        GroupKind::AnyNormal => cell_at(g, x, y).is_normal(),
    }
}

/// (tx, ty) is joined to (sx, sy) by a path of at most n steps between
/// orthogonal neighbours, every cell of it a member.
pub open spec fn reach(g: Seq<PuyoColor>, k: GroupKind, sx: int, sy: int, tx: int, ty: int, n: nat) -> bool
    decreases n,
{
    if n == 0 {
        tx == sx && ty == sy && member(g, k, sx, sy)
    } else {
        reach(g, k, sx, sy, tx, ty, (n - 1) as nat) || (member(g, k, tx, ty) && (reach(
            g,
            k,
            sx,
            sy,
            tx - 1,
            ty,
            (n - 1) as nat,
        ) || reach(g, k, sx, sy, tx + 1, ty, (n - 1) as nat) || reach(g, k, sx, sy, tx, ty - 1, (n - 1) as nat)
            || reach(g, k, sx, sy, tx, ty + 1, (n - 1) as nat)))
    }
}

/// (tx, ty) belongs to the group of (sx, sy).
pub open spec fn connected(g: Seq<PuyoColor>, k: GroupKind, sx: int, sy: int, tx: int, ty: int) -> bool {
    exists|n: nat| reach(g, k, sx, sy, tx, ty, n)
}

pub proof fn lemma_reach_member(g: Seq<PuyoColor>, k: GroupKind, sx: int, sy: int, tx: int, ty: int, n: nat)
    requires
        reach(g, k, sx, sy, tx, ty, n),
    ensures
        member(g, k, tx, ty),
    decreases n,
{
    if n > 0 && reach(g, k, sx, sy, tx, ty, (n - 1) as nat) {
        lemma_reach_member(g, k, sx, sy, tx, ty, (n - 1) as nat);
    }
}

/// Column of the cell at position i.
pub open spec fn col_of(i: int) -> int {
    i / 13 + 1
}

/// Row of the cell at position i.
pub open spec fn row_of(i: int) -> int {
    i % 13 + 1
}

/// Number of true entries among the first n.
pub open spec fn count_true(m: Seq<bool>, n: int) -> int
    decreases n,
{
    if n <= 0 {
        0
    } else {
        count_true(m, n - 1) + if m[n - 1] {
            1int
        } else {
            0
        }
    }
}

proof fn lemma_count_set(m: Seq<bool>, i: int, n: int)
    requires
        0 <= i < m.len(),
        !m[i],
        0 <= n <= m.len(),
    ensures
        count_true(m.update(i, true), n) == count_true(m, n) + if i < n {
            1int
        } else {
            0
        },
    decreases n,
{
    if n > 0 {
        lemma_count_set(m, i, n - 1);
    }
}

proof fn lemma_count_bounds(m: Seq<bool>, n: int)
    requires
        0 <= n <= m.len(),
    ensures
        0 <= count_true(m, n) <= n,
    decreases n,
{
    if n > 0 {
        lemma_count_bounds(m, n - 1);
    }
}

/// Every member neighbour of (x, y) is marked.
pub open spec fn neighbours_marked(g: Seq<PuyoColor>, k: GroupKind, m: Seq<bool>, x: int, y: int) -> bool {
    &&& member(g, k, x - 1, y) ==> m[cell_index(x - 1, y)]
    &&& member(g, k, x + 1, y) ==> m[cell_index(x + 1, y)]
    &&& member(g, k, x, y - 1) ==> m[cell_index(x, y - 1)]
    &&& member(g, k, x, y + 1) ==> m[cell_index(x, y + 1)]
}

/// Whether (x, y) is in the field and a member.
pub fn is_member(g: &Grid, k: GroupKind, x: usize, y: usize) -> (b: bool)
    requires
        g.wf(),
    ensures
        b == member(g@, k, x as int, y as int),
{
    if x < 1 || x > 6 || y < 1 || y > 13 {
        return false;
    }
    let c = g.color(x, y);
    match k {
        GroupKind::SameColor(want) => c == want,
        GroupKind::AnyNormal => c.is_normal_color(),
    }
}

/// Marks (x, y) and puts it on the stack when it is an unmarked member.
fn visit(g: &Grid, k: GroupKind, mask: &mut Vec<bool>, stack: &mut Vec<usize>, x: usize, y: usize)
    requires
        g.wf(),
        old(mask)@.len() == 78,
    ensures
        final(mask)@.len() == 78,
        member(g@, k, x as int, y as int) && !old(mask)@[cell_index(x as int, y as int)] ==> {
            &&& final(mask)@ == old(mask)@.update(cell_index(x as int, y as int), true)
            &&& final(stack)@ == old(stack)@.push(cell_index(x as int, y as int) as usize)
        },
        !(member(g@, k, x as int, y as int) && !old(mask)@[cell_index(x as int, y as int)]) ==> {
            &&& final(mask)@ == old(mask)@
            &&& final(stack)@ == old(stack)@
        },
{
    if is_member(g, k, x, y) {
        proof {
            lemma_index_in_range(x as int, y as int);
        }
        let i = (x - 1) * 13 + (y - 1);
        if !mask[i] {
            mask.set(i, true);
            stack.push(i);
        }
    }
}

/// The invariant of the search: marked cells are members joined to the
/// start, and a marked cell off the stack has all its member neighbours marked.
pub open spec fn search_inv(g: Seq<PuyoColor>, k: GroupKind, sx: int, sy: int, m: Seq<bool>, st: Seq<usize>) -> bool {
    &&& m.len() == 78
    &&& m[cell_index(sx, sy)]
    &&& forall|x: int, y: int| in_field(x, y) && #[trigger] m[cell_index(x, y)] ==> connected(g, k, sx, sy, x, y)
    &&& forall|x: int, y: int|
        in_field(x, y) && #[trigger] m[cell_index(x, y)] && !st.contains(cell_index(x, y) as usize) ==> neighbours_marked(g, k, m, x, y)
    &&& forall|j: int| 0 <= j < st.len() ==> (#[trigger] st[j]) < 78 && m[st[j] as int]
}

proof fn lemma_mark_keeps(g: Seq<PuyoColor>, k: GroupKind, sx: int, sy: int, m: Seq<bool>, x: int, y: int, ux: int, uy: int, n: nat)
    requires
        in_field(sx, sy),
        m.len() == 78,
        member(g, k, x, y),
        reach(g, k, sx, sy, ux, uy, n),
        (ux == x - 1 && uy == y) || (ux == x + 1 && uy == y) || (ux == x && uy == y - 1) || (ux == x && uy == y + 1),
    ensures
        connected(g, k, sx, sy, x, y),
{
    assert(reach(g, k, sx, sy, x, y, n + 1));
}

proof fn lemma_closed_reach(g: Seq<PuyoColor>, k: GroupKind, sx: int, sy: int, m: Seq<bool>, tx: int, ty: int, n: nat)
    requires
        m.len() == 78,
        in_field(sx, sy),
        m[cell_index(sx, sy)],
        forall|x: int, y: int| in_field(x, y) && #[trigger] m[cell_index(x, y)] ==> neighbours_marked(g, k, m, x, y),
        reach(g, k, sx, sy, tx, ty, n),
    ensures
        in_field(tx, ty) && m[cell_index(tx, ty)],
    decreases n,
{
    lemma_reach_member(g, k, sx, sy, tx, ty, n);
    if n > 0 {
        if reach(g, k, sx, sy, tx, ty, (n - 1) as nat) {
            lemma_closed_reach(g, k, sx, sy, m, tx, ty, (n - 1) as nat);
        } else if reach(g, k, sx, sy, tx - 1, ty, (n - 1) as nat) {
            lemma_closed_reach(g, k, sx, sy, m, tx - 1, ty, (n - 1) as nat);
            assert(neighbours_marked(g, k, m, tx - 1, ty));
        } else if reach(g, k, sx, sy, tx + 1, ty, (n - 1) as nat) {
            lemma_closed_reach(g, k, sx, sy, m, tx + 1, ty, (n - 1) as nat);
            assert(neighbours_marked(g, k, m, tx + 1, ty));
        } else if reach(g, k, sx, sy, tx, ty - 1, (n - 1) as nat) {
            lemma_closed_reach(g, k, sx, sy, m, tx, ty - 1, (n - 1) as nat);
            assert(neighbours_marked(g, k, m, tx, ty - 1));
        } else {
            lemma_closed_reach(g, k, sx, sy, m, tx, ty + 1, (n - 1) as nat);
            assert(neighbours_marked(g, k, m, tx, ty + 1));
        }
    }
}

proof fn lemma_reach_from_member(g: Seq<PuyoColor>, k: GroupKind, sx: int, sy: int, tx: int, ty: int, n: nat)
    requires
        reach(g, k, sx, sy, tx, ty, n),
    ensures
        member(g, k, sx, sy),
    decreases n,
{
    if n > 0 {
        if reach(g, k, sx, sy, tx, ty, (n - 1) as nat) {
            lemma_reach_from_member(g, k, sx, sy, tx, ty, (n - 1) as nat);
        } else if reach(g, k, sx, sy, tx - 1, ty, (n - 1) as nat) {
            lemma_reach_from_member(g, k, sx, sy, tx - 1, ty, (n - 1) as nat);
        } else if reach(g, k, sx, sy, tx + 1, ty, (n - 1) as nat) {
            lemma_reach_from_member(g, k, sx, sy, tx + 1, ty, (n - 1) as nat);
        } else if reach(g, k, sx, sy, tx, ty - 1, (n - 1) as nat) {
            lemma_reach_from_member(g, k, sx, sy, tx, ty - 1, (n - 1) as nat);
        } else {
            lemma_reach_from_member(g, k, sx, sy, tx, ty + 1, (n - 1) as nat);
        }
    }
}

/// The search state between the four visits of a popped cell (ux, uy).
pub open spec fn step_inv(
    g: Seq<PuyoColor>,
    k: GroupKind,
    sx: int,
    sy: int,
    m: Seq<bool>,
    st: Seq<usize>,
    ux: int,
    uy: int,
    c0: int,
    l0: int,
) -> bool {
    &&& m.len() == 78
    &&& m[cell_index(sx, sy)]
    &&& in_field(ux, uy) && m[cell_index(ux, uy)]
    &&& forall|x: int, y: int| in_field(x, y) && #[trigger] m[cell_index(x, y)] ==> connected(g, k, sx, sy, x, y)
    &&& forall|x: int, y: int|
        in_field(x, y) && #[trigger] m[cell_index(x, y)] && !st.contains(cell_index(x, y) as usize) && (x != ux
            || y != uy) ==> neighbours_marked(g, k, m, x, y)
    &&& forall|j: int| 0 <= j < st.len() ==> (#[trigger] st[j]) < 78 && m[st[j] as int]
    &&& st.len() >= l0
    &&& count_true(m, 78) - c0 == st.len() - l0
    &&& count_true(m, 78) <= 78
}

proof fn lemma_visit_step(
    g: Seq<PuyoColor>,
    k: GroupKind,
    sx: int,
    sy: int,
    m: Seq<bool>,
    st: Seq<usize>,
    m2: Seq<bool>,
    st2: Seq<usize>,
    ux: int,
    uy: int,
    vx: int,
    vy: int,
    c0: int,
    l0: int,
)
    requires
        in_field(sx, sy),
        step_inv(g, k, sx, sy, m, st, ux, uy, c0, l0),
        (vx == ux - 1 && vy == uy) || (vx == ux + 1 && vy == uy) || (vx == ux && vy == uy - 1) || (vx == ux
            && vy == uy + 1),
        member(g, k, vx, vy) && !m[cell_index(vx, vy)] ==> m2 == m.update(cell_index(vx, vy), true) && st2
            == st.push(cell_index(vx, vy) as usize),
        !(member(g, k, vx, vy) && !m[cell_index(vx, vy)]) ==> m2 == m && st2 == st,
    ensures
        step_inv(g, k, sx, sy, m2, st2, ux, uy, c0, l0),
        member(g, k, vx, vy) ==> m2[cell_index(vx, vy)],
        forall|j: int| 0 <= j < 78 && m[j] ==> m2[j],
{
    if member(g, k, vx, vy) && !m[cell_index(vx, vy)] {
        let iv = cell_index(vx, vy);
        lemma_index_in_range(vx, vy);
        lemma_count_set(m, iv, 78);
        lemma_count_bounds(m2, 78);
        assert(connected(g, k, sx, sy, ux, uy));
        let n = choose|n: nat| reach(g, k, sx, sy, ux, uy, n);
        lemma_mark_keeps(g, k, sx, sy, m, vx, vy, ux, uy, n);
        assert(m2[cell_index(sx, sy)]);
        assert(m2[cell_index(ux, uy)]);
        assert forall|x: int, y: int| in_field(x, y) && #[trigger] m2[cell_index(x, y)] implies connected(g, k, sx, sy, x, y) by {
            if x != vx || y != vy {
                lemma_index_injective(x, y, vx, vy);
            }
        }
        assert forall|x: int, y: int|
            in_field(x, y) && #[trigger] m2[cell_index(x, y)] && !st2.contains(cell_index(x, y) as usize) && (x
                != ux || y != uy) implies neighbours_marked(g, k, m2, x, y) by {
            lemma_index_in_range(x, y);
            if x == vx && y == vy {
                assert(st2[st2.len() - 1] == iv as usize);
            } else {
                lemma_index_injective(x, y, vx, vy);
                assert(m[cell_index(x, y)]);
                assert(!st.contains(cell_index(x, y) as usize)) by {
                    if st.contains(cell_index(x, y) as usize) {
                        let j = choose|j: int| 0 <= j < st.len() && st[j] == cell_index(x, y) as usize;
                        assert(st2[j] == st[j]);
                    }
                }
                assert(neighbours_marked(g, k, m, x, y));
            }
        }
        assert forall|j: int| 0 <= j < st2.len() implies (#[trigger] st2[j]) < 78 && m2[st2[j] as int] by {
            if j < st.len() {
                assert(st2[j] == st[j]);
            }
        }
    }
}

/// Marks the group of (sx, sy): position i of the mask is true exactly when
/// the cell at i belongs to the group; none when (sx, sy) is no member.
pub fn group_mask(g: &Grid, k: GroupKind, sx: usize, sy: usize) -> (m: Vec<bool>)
    requires
        g.wf(),
        in_field(sx as int, sy as int),
    ensures
        m@.len() == 78,
        forall|x: int, y: int|
            in_field(x, y) ==> (#[trigger] m@[cell_index(x, y)] <==> connected(g@, k, sx as int, sy as int, x, y)),
{
    let mut mask: Vec<bool> = Vec::new();
    let mut i: usize = 0;
    while i < 78
        invariant
            i <= 78,
            mask@.len() == i,
            forall|j: int| 0 <= j < i ==> !mask@[j],
        decreases 78 - i,
    {
        mask.push(false);
        i = i + 1;
    }
    if !is_member(g, k, sx, sy) {
        proof {
            assert forall|x: int, y: int| in_field(x, y) implies (#[trigger] mask@[cell_index(x, y)] <==> connected(g@, k, sx as int, sy as int, x, y)) by {
                lemma_index_in_range(x, y);
                if connected(g@, k, sx as int, sy as int, x, y) {
                    let n = choose|n: nat| reach(g@, k, sx as int, sy as int, x, y, n);
                    lemma_reach_from_member(g@, k, sx as int, sy as int, x, y, n);
                }
            }
        }
        return mask;
    }
    let ghost gs = g@;
    let ghost (gx, gy) = (sx as int, sy as int);
    proof {
        lemma_index_in_range(gx, gy);
        assert(reach(gs, k, gx, gy, gx, gy, 0));
    }
    let si = (sx - 1) * 13 + (sy - 1);
    let ghost m0 = mask@;
    mask.set(si, true);
    proof {
        lemma_count_bounds(m0, 78);
        lemma_count_set(m0, si as int, 78);
        assert forall|x: int, y: int| in_field(x, y) && #[trigger] mask@[cell_index(x, y)] implies connected(gs, k, gx, gy, x, y) by {
            lemma_index_in_range(x, y);
            if x != gx || y != gy {
                lemma_index_injective(x, y, gx, gy);
            }
        }
    }
    let mut stack: Vec<usize> = Vec::new();
    stack.push(si);
    proof {
        lemma_count_bounds(mask@, 78);
        assert(stack@[0] == si);
        assert forall|x: int, y: int|
            in_field(x, y) && #[trigger] mask@[cell_index(x, y)] && !stack@.contains(cell_index(x, y) as usize) implies neighbours_marked(gs, k, mask@, x, y) by {
            lemma_index_in_range(x, y);
            if x != gx || y != gy {
                lemma_index_injective(x, y, gx, gy);
            }
        }
        assert(search_inv(gs, k, gx, gy, mask@, stack@));
    }
    while stack.len() > 0
        invariant
            g.wf(),
            gs == g@,
            in_field(gx, gy),
            gx == sx,
            gy == sy,
            search_inv(gs, k, gx, gy, mask@, stack@),
            0 <= count_true(mask@, 78) <= 78,
        decreases 2 * (78 - count_true(mask@, 78)) + stack@.len(),
    {
        let ghost old_stack = stack@;
        let ghost old_len = stack@.len() as int;
        let u = stack.pop().unwrap();
        proof {
            assert(old_stack[old_len - 1] == u);
        }
        let ux = u / 13 + 1;
        let uy = u % 13 + 1;
        let ghost ui = u as int;
        proof {
            assert(in_field(ux as int, uy as int));
            assert(cell_index(ux as int, uy as int) == ui);
        }
        let ghost c0 = count_true(mask@, 78);
        let ghost l0 = stack@.len() as int;
        let ghost (gux, guy) = (ux as int, uy as int);
        proof {
            assert(stack@.len() + 1 == old_len);
            assert forall|x: int, y: int|
                in_field(x, y) && #[trigger] mask@[cell_index(x, y)] && !stack@.contains(cell_index(x, y) as usize)
                    && (x != gux || y != guy) implies neighbours_marked(gs, k, mask@, x, y) by {
                if old_stack.contains(cell_index(x, y) as usize) {
                    let j = choose|j: int| 0 <= j < old_stack.len() && old_stack[j] == cell_index(x, y) as usize;
                    if j < stack@.len() {
                        assert(stack@[j] == old_stack[j]);
                    } else {
                        lemma_index_injective(x, y, gux, guy);
                    }
                }
            }
            assert forall|j: int| 0 <= j < stack@.len() implies (#[trigger] stack@[j]) < 78 && mask@[stack@[j] as int] by {
                assert(stack@[j] == old_stack[j]);
            }
            assert(step_inv(gs, k, gx, gy, mask@, stack@, gux, guy, c0, l0));
        }
        let ghost m_a = mask@;
        let ghost s_a = stack@;
        visit(g, k, &mut mask, &mut stack, ux - 1, uy);
        proof {
            lemma_visit_step(gs, k, gx, gy, m_a, s_a, mask@, stack@, gux, guy, gux - 1, guy, c0, l0);
        }
        let ghost m_b = mask@;
        let ghost s_b = stack@;
        visit(g, k, &mut mask, &mut stack, ux + 1, uy);
        proof {
            lemma_visit_step(gs, k, gx, gy, m_b, s_b, mask@, stack@, gux, guy, gux + 1, guy, c0, l0);
        }
        let ghost m_c = mask@;
        let ghost s_c = stack@;
        visit(g, k, &mut mask, &mut stack, ux, uy - 1);
        proof {
            lemma_visit_step(gs, k, gx, gy, m_c, s_c, mask@, stack@, gux, guy, gux, guy - 1, c0, l0);
        }
        let ghost m_d = mask@;
        let ghost s_d = stack@;
        visit(g, k, &mut mask, &mut stack, ux, uy + 1);
        proof {
            lemma_visit_step(gs, k, gx, gy, m_d, s_d, mask@, stack@, gux, guy, gux, guy + 1, c0, l0);
            assert(neighbours_marked(gs, k, mask@, gux, guy));
        }
    }
    proof {
        assert forall|x: int, y: int| in_field(x, y) implies (#[trigger] mask@[cell_index(x, y)] <==> connected(gs, k, gx, gy, x, y)) by {
            if connected(gs, k, gx, gy, x, y) {
                let n = choose|n: nat| reach(gs, k, gx, gy, x, y, n);
                lemma_closed_reach(gs, k, gx, gy, mask@, x, y, n);
            }
        }
    }
    mask
}

pub proof fn lemma_position(i: int)
    requires
        0 <= i < 78,
    ensures
        in_field(col_of(i), row_of(i)),
        cell_index(col_of(i), row_of(i)) == i,
{
}

/// The cells of the group of (x, y), by position.
pub open spec fn group_seq(g: Seq<PuyoColor>, k: GroupKind, x: int, y: int) -> Seq<bool> {
    Seq::new(78, |i: int| connected(g, k, x, y, col_of(i), row_of(i)))
}

/// Number of cells in the group of (x, y).
pub open spec fn group_size(g: Seq<PuyoColor>, k: GroupKind, x: int, y: int) -> int {
    count_true(group_seq(g, k, x, y), 78)
}

/// The group of a cell's own color.
pub open spec fn own_color(g: Seq<PuyoColor>, x: int, y: int) -> GroupKind {
    GroupKind::SameColor(cell_at(g, x, y))
}

/// Counts the true entries of a mask.
pub fn count_marked(m: &Vec<bool>) -> (r: usize)
    requires
        m@.len() == 78,
    ensures
        r == count_true(m@, 78),
{
    let mut c: usize = 0;
    let mut i: usize = 0;
    while i < 78
        invariant
            m@.len() == 78,
            i <= 78,
            c == count_true(m@, i as int),
            c <= i,
        decreases 78 - i,
    {
        if m[i] {
            c = c + 1;
        }
        i = i + 1;
    }
    c
}

/// Size of the group of cells of (x, y)'s color joined to (x, y).
pub fn count_connected(g: &Grid, x: usize, y: usize) -> (r: usize)
    requires
        g.wf(),
        in_field(x as int, y as int),
    ensures
        r == group_size(g@, own_color(g@, x as int, y as int), x as int, y as int),
{
    let c = g.color(x, y);
    group_count(g, GroupKind::SameColor(c), x, y)
}

/// Size of the group of kind `k` joined to (x, y).
pub fn group_count(g: &Grid, k: GroupKind, x: usize, y: usize) -> (r: usize)
    requires
        g.wf(),
        in_field(x as int, y as int),
    ensures
        r == group_size(g@, k, x as int, y as int),
{
    let m = group_mask(g, k, x, y);
    proof {
        assert forall|i: int| 0 <= i < 78 implies m@[i] == group_seq(g@, k, x as int, y as int)[i] by {
            lemma_position(i);
        }
        assert(m@ =~= group_seq(g@, k, x as int, y as int));
    }
    count_marked(&m)
}

/// The union of two masks.
fn or_masks(a: &Vec<bool>, b: &Vec<bool>) -> (r: Vec<bool>)
    requires
        a@.len() == 78,
        b@.len() == 78,
    ensures
        r@.len() == 78,
        forall|q: int| 0 <= q < 78 ==> (r@[q] <==> (a@[q] || b@[q])),
{
    let mut r: Vec<bool> = Vec::new();
    let mut j: usize = 0;
    while j < 78
        invariant
            j <= 78,
            a@.len() == 78,
            b@.len() == 78,
            r@.len() == j,
            forall|q: int| 0 <= q < j ==> (r@[q] <==> (a@[q] || b@[q])),
        decreases 78 - j,
    {
        r.push(a[j] || b[j]);
        j = j + 1;
    }
    r
}

/// Whether column 3 at row y holds a normal color, as a start of the
/// central groups.
pub open spec fn central_start(g: Seq<PuyoColor>, y: int) -> bool {
    1 <= y <= 13 && cell_at(g, 3, y).is_normal()
}

/// Cells of normal color joined, through normal colors, to a normal cell of column 3.
pub open spec fn central_seq(g: Seq<PuyoColor>) -> Seq<bool> {
    Seq::new(
        78,
        |i: int| exists|y: int| central_start(g, y) && #[trigger] connected(g, GroupKind::AnyNormal, 3, y, col_of(i), row_of(i)),
    )
}

/// How developed the grid is: the cells of normal color joined, through
/// normal colors regardless of which, to the normal cells of column 3.
pub fn count_color_puyos_connected_from_start(g: &Grid) -> (r: usize)
    requires
        g.wf(),
    ensures
        r == count_true(central_seq(g@), 78),
{
    let mut all: Vec<bool> = Vec::new();
    let mut i: usize = 0;
    while i < 78
        invariant
            i <= 78,
            all@.len() == i,
            forall|j: int| 0 <= j < i ==> !all@[j],
        decreases 78 - i,
    {
        all.push(false);
        i = i + 1;
    }
    let mut y: usize = 13;
    while y >= 1
        invariant
            g.wf(),
            y <= 13,
            all@.len() == 78,
            forall|j: int|
                0 <= j < 78 ==> (all@[j] <==> exists|yy: int|
                    y < yy <= 13 && central_start(g@, yy) && #[trigger] connected(g@, GroupKind::AnyNormal, 3, yy, col_of(j), row_of(j))),
        decreases y,
    {
        let c = g.color(3, y);
        if c.is_normal_color() {
            let m = group_mask(g, GroupKind::AnyNormal, 3, y);
            let ghost before = all@;
            all = or_masks(&all, &m);
            proof {
                assert forall|q: int| 0 <= q < 78 implies (all@[q] <==> exists|yy: int|
                    y - 1 < yy <= 13 && central_start(g@, yy) && #[trigger] connected(g@, GroupKind::AnyNormal, 3, yy, col_of(q), row_of(q))) by {
                    lemma_position(q);
                    let cq = col_of(q);
                    let rq = row_of(q);
                    assert(m@[cell_index(cq, rq)] <==> connected(g@, GroupKind::AnyNormal, 3, y as int, cq, rq));
                    assert(m@[q] <==> connected(g@, GroupKind::AnyNormal, 3, y as int, cq, rq));
                    if m@[q] {
                        assert(central_start(g@, y as int));
                        assert(connected(g@, GroupKind::AnyNormal, 3, y as int, col_of(q), row_of(q)));
                    }
                    if exists|yy: int| y - 1 < yy <= 13 && central_start(g@, yy) && #[trigger] connected(g@, GroupKind::AnyNormal, 3, yy, col_of(q), row_of(q)) {
                        let yy = choose|yy: int| y - 1 < yy <= 13 && central_start(g@, yy) && #[trigger] connected(g@, GroupKind::AnyNormal, 3, yy, col_of(q), row_of(q));
                        if yy == y {
                            assert(m@[cell_index(col_of(q), row_of(q))]);
                        }
                    }
                }
            }
        } else {
            proof {
                assert forall|q: int| 0 <= q < 78 implies (all@[q] <==> exists|yy: int|
                    y - 1 < yy <= 13 && central_start(g@, yy) && #[trigger] connected(g@, GroupKind::AnyNormal, 3, yy, col_of(q), row_of(q))) by {
                    if exists|yy: int| y - 1 < yy <= 13 && central_start(g@, yy) && #[trigger] connected(g@, GroupKind::AnyNormal, 3, yy, col_of(q), row_of(q)) {
                        let yy = choose|yy: int| y - 1 < yy <= 13 && central_start(g@, yy) && #[trigger] connected(g@, GroupKind::AnyNormal, 3, yy, col_of(q), row_of(q));
                        assert(yy != y);
                    }
                }
            }
        }
        y = y - 1;
    }
    proof {
        assert(all@ =~= central_seq(g@));
    }
    count_marked(&all)
}

/// The chain length worth stopping the search for on this grid:
/// min(14, developed cells / 5 + 4).
pub fn calculate_good_chains(g: &Grid) -> (r: usize)
    requires
        g.wf(),
    ensures
        r == if count_true(central_seq(g@), 78) / 5 + 4 < 14 { count_true(central_seq(g@), 78) / 5 + 4 } else { 14 },
{
    let n = count_color_puyos_connected_from_start(g);
    proof {
        lemma_count_bounds(central_seq(g@), 78);
    }
    if n / 5 + 4 < 14 {
        n / 5 + 4
    } else {
        14
    }
}

/// Cells among the first n positions that hold a normal color and whose
/// group of that color has exactly `size` cells.
pub open spec fn sized_cells(g: Seq<PuyoColor>, size: int, n: int) -> int
    decreases n,
{
    if n <= 0 {
        0
    } else {
        let x = col_of(n - 1);
        let y = row_of(n - 1);
        sized_cells(g, size, n - 1) + if cell_at(g, x, y).is_normal() && group_size(g, own_color(g, x, y), x, y) == size {
            1int
        } else {
            0
        }
    }
}

/// Cells of normal color in groups of two, and in groups of three.
pub fn small_group_cells(g: &Grid) -> (r: (usize, usize))
    requires
        g.wf(),
    ensures
        r.0 == sized_cells(g@, 2, 78),
        r.1 == sized_cells(g@, 3, 78),
        r.0 <= 78,
        r.1 <= 78,
{
    let mut two: usize = 0;
    let mut three: usize = 0;
    let mut i: usize = 0;
    while i < 78
        invariant
            g.wf(),
            i <= 78,
            two == sized_cells(g@, 2, i as int),
            three == sized_cells(g@, 3, i as int),
            two <= i,
            three <= i,
        decreases 78 - i,
    {
        let x = i / 13 + 1;
        let y = i % 13 + 1;
        proof {
            lemma_position(i as int);
        }
        if g.color(x, y).is_normal_color() {
            let size = count_connected(g, x, y);
            if size == 2 {
                two = two + 1;
            } else if size == 3 {
                three = three + 1;
            }
        }
        i = i + 1;
    }
    (two, three)
}

} // verus!
