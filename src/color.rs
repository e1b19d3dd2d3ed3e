use vstd::prelude::*;

verus! {

/// What a cell of the playfield holds.
#[derive(Clone, Copy, Debug, PartialEq, Eq, Structural)]
pub enum PuyoColor {
    Empty,
    Ojama,
    Red,
    Blue,
    Yellow,
    Green,
}

impl PuyoColor {
    /// One of the four colors that take part in group elimination.
    pub open spec fn is_normal(self) -> bool {
        match self {
            PuyoColor::Red | PuyoColor::Blue | PuyoColor::Yellow | PuyoColor::Green => true,
            _ => false,
        }
    }

    pub fn is_normal_color(&self) -> (r: bool)
        ensures
            r == self.is_normal(),
    {
        match self {
            PuyoColor::Red | PuyoColor::Blue | PuyoColor::Yellow | PuyoColor::Green => true,
            _ => false,
        }
    }

    pub fn is_empty_cell(&self) -> (r: bool)
        ensures
            r == (*self == PuyoColor::Empty),
    {
        match self {
            PuyoColor::Empty => true,
            _ => false,
        }
    }
}

/// The four normal colors, in the order in which hypothetical blocks are tried.
pub open spec fn normal_colors() -> Seq<PuyoColor> {
    seq![PuyoColor::Red, PuyoColor::Blue, PuyoColor::Yellow, PuyoColor::Green]
}

pub fn normal_color_list() -> (r: Vec<PuyoColor>)
    ensures
        r@ == normal_colors(),
{
    let r = vec![PuyoColor::Red, PuyoColor::Blue, PuyoColor::Yellow, PuyoColor::Green];
    assert(r@ =~= normal_colors());
    r
}

/// A falling unit of two blocks: the axis and the child that turns around it.
#[derive(Clone, Copy, Debug, PartialEq, Eq, Structural)]
pub struct Kumipuyo {
    pub axis: PuyoColor,
    pub child: PuyoColor,
}

impl Kumipuyo {
    pub fn new(axis: PuyoColor, child: PuyoColor) -> (k: Kumipuyo)
        ensures
            k.axis == axis,
            k.child == child,
    {
        Kumipuyo { axis, child }
    }

    pub fn axis(&self) -> (c: PuyoColor)
        ensures
            c == self.axis,
    {
        self.axis
    }

    pub fn child(&self) -> (c: PuyoColor)
        ensures
            c == self.child,
    {
        self.child
    }
}

} // verus!
