use vstd::prelude::*;

verus! {

/// Where a piece goes: the axis column (1 to 6) and the rotation (0 to 3) that
/// puts the child above (0), right of (1), below (2) or left of (3) the axis.
#[derive(Clone, Copy, Debug, PartialEq, Eq, Structural)]
pub struct Decision {
    pub x: usize,
    pub r: usize,
}

/// The fixed set of placements: every column and rotation but the two that
/// would put the child outside the playfield.
pub open spec fn valid_placement(x: int, r: int) -> bool {
    &&& 1 <= x <= 6
    &&& 0 <= r <= 3
    &&& !(x == 1 && r == 3)
    &&& !(x == 6 && r == 1)
}

/// Enumeration order of decisions: column ascending, then rotation ascending.
pub open spec fn precedes(a: Decision, b: Decision) -> bool {
    a.x < b.x || (a.x == b.x && a.r < b.r)
}

/// The column of the child block.
pub open spec fn child_column(x: int, r: int) -> int {
    if r == 1 {
        x + 1
    } else if r == 3 {
        x - 1
    } else {
        x
    }
}

impl Decision {
    pub open spec fn is_valid_spec(self) -> bool {
        valid_placement(self.x as int, self.r as int)
    }

    pub fn new(x: usize, r: usize) -> (d: Decision)
        ensures
            d.x == x,
            d.r == r,
    {
        Decision { x, r }
    }

    pub fn axis_x(&self) -> (x: usize)
        ensures
            x == self.x,
    {
        self.x
    }

    pub fn rot(&self) -> (r: usize)
        ensures
            r == self.r,
    {
        self.r
    }

    pub fn child_x(&self) -> (x: usize)
        requires
            self.is_valid_spec(),
        ensures
            x == child_column(self.x as int, self.r as int),
    {
        if self.r == 1 {
            self.x + 1
        } else if self.r == 3 {
            self.x - 1
        } else {
            self.x
        }
    }

    pub fn is_valid(&self) -> (b: bool)
        ensures
            b == self.is_valid_spec(),
    {
        1 <= self.x && self.x <= 6 && self.r <= 3 && !(self.x == 1 && self.r == 3) && !(self.x == 6
            && self.r == 1)
    }

    /// The placement taken when nothing better is known: third column, child on top.
    pub fn default_decision() -> (d: Decision)
        ensures
            d == default_spec(),
    {
        Decision { x: 3, r: 0 }
    }
}

pub open spec fn default_spec() -> Decision {
    Decision { x: 3, r: 0 }
}

/// Every valid decision, in enumeration order.
pub fn all_valid_decisions() -> (v: Vec<Decision>)
    ensures
        v@.len() == 22,
        forall|i: int| 0 <= i < v@.len() ==> (#[trigger] v@[i]).is_valid_spec(),
        forall|i: int, j: int| 0 <= i < j < v@.len() ==> precedes(v@[i], v@[j]),
        forall|d: Decision| d.is_valid_spec() ==> v@.contains(d),
{
    let mut v: Vec<Decision> = Vec::new();
    let mut x: usize = 1;
    while x <= 6
        invariant
            1 <= x <= 7,
            forall|i: int| 0 <= i < v@.len() ==> (#[trigger] v@[i]).is_valid_spec() && v@[i].x < x,
            forall|i: int, j: int| 0 <= i < j < v@.len() ==> precedes(v@[i], v@[j]),
            forall|d: Decision| d.is_valid_spec() && d.x < x ==> v@.contains(d),
            v@.len() == if x == 1 { 0 } else { 4 * (x - 1) - 1 - (if x == 7 { 1int } else { 0 }) },
        decreases 7 - x,
    {
        let mut r: usize = 0;
        let ghost before = v@;
        while r < 4
            invariant
                1 <= x <= 6,
                r <= 4,
                before.len() <= v@.len(),
                forall|i: int| 0 <= i < before.len() ==> v@[i] == before[i],
                forall|i: int| 0 <= i < before.len() ==> (#[trigger] before[i]).x < x,
                forall|i: int|
                    before.len() <= i < v@.len() ==> (#[trigger] v@[i]).is_valid_spec() && v@[i].x
                        == x && v@[i].r < r,
                forall|i: int| 0 <= i < v@.len() ==> (#[trigger] v@[i]).is_valid_spec() && v@[i].x <= x,
                forall|i: int, j: int| 0 <= i < j < v@.len() ==> precedes(v@[i], v@[j]),
                forall|d: Decision| d.is_valid_spec() && d.x < x ==> v@.contains(d),
                forall|d: Decision| d.is_valid_spec() && d.x == x && d.r < r ==> v@.contains(d),
                v@.len() == before.len() + (if x == 1 && r == 4 { 3int } else if x == 1 { r as int
                    } else if x == 6 && r >= 2 { r - 1 } else { r as int }),
            decreases 4 - r,
        {
            let d = Decision { x, r };
            if d.is_valid() {
                let ghost prev = v@;
                assert forall|i: int| 0 <= i < prev.len() implies precedes(#[trigger] prev[i], d) by {
                    if i < before.len() {
                        assert(before[i].x < x);
                    }
                }
                v.push(d);
                assert forall|e: Decision| e.is_valid_spec() && e.x == x && e.r < r + 1 implies v@.contains(e) by {
                    if e.r == r {
                        assert(v@[v@.len() - 1] == e);
                    } else {
                        assert(prev.contains(e));
                        let k = choose|k: int| 0 <= k < prev.len() && prev[k] == e;
                        assert(v@[k] == e);
                    }
                }
                assert forall|e: Decision| e.is_valid_spec() && e.x < x implies v@.contains(e) by {
                    assert(prev.contains(e));
                    let k = choose|k: int| 0 <= k < prev.len() && prev[k] == e;
                    assert(v@[k] == e);
                }
            }
            r = r + 1;
        }
        x = x + 1;
    }
    v
}

} // verus!
