//! Overlap of axis-aligned boxes.

use vstd::prelude::*;
use crate::ieee::single::Single;

verus! {

/// An axis-aligned box: its top left corner and its size.
#[derive(Debug, Clone, Copy, PartialEq)]
pub struct Aabb {
    pub x: Single,
    pub y: Single,
    pub width: Single,
    pub height: Single,
}

impl Aabb {
    /// The x-coordinate of the right edge.
    pub open spec fn right_edge(self) -> Single {
        self.x.plus(self.width)
    }

    /// The y-coordinate of the bottom edge.
    pub open spec fn bottom_edge(self) -> Single {
        self.y.plus(self.height)
    }

    /// Two boxes overlap unless one ends, on either axis, where the other
    /// begins or before it: boxes that only touch do not overlap.
    pub open spec fn overlaps(self, other: Aabb) -> bool {
        !(self.right_edge().at_most(other.x) || other.right_edge().at_most(self.x)
            || self.bottom_edge().at_most(other.y) || other.bottom_edge().at_most(self.y))
    }

    /// A box with its top left corner at `(x, y)`.
    pub fn new(x: Single, y: Single, width: Single, height: Single) -> (r: Self)
        ensures
            r == (Aabb { x, y, width, height }),
    {
        Self { x, y, width, height }
    }

    /// The x-coordinate of the right edge.
    pub fn right(&self) -> (r: Single)
        ensures
            r == self.right_edge(),
    {
        self.x.add(self.width)
    }

    /// The y-coordinate of the bottom edge.
    pub fn bottom(&self) -> (r: Single)
        ensures
            r == self.bottom_edge(),
    {
        self.y.add(self.height)
    }

    /// The x-coordinate of the left edge.
    pub fn left(&self) -> (r: Single)
        ensures
            r == self.x,
    {
        self.x
    }

    /// The y-coordinate of the top edge.
    pub fn top(&self) -> (r: Single)
        ensures
            r == self.y,
    {
        self.y
    }
}

/// Whether two boxes, each given by position and size, overlap.
pub fn aabb_overlap(
    a_pos: (Single, Single),
    a_size: (Single, Single),
    b_pos: (Single, Single),
    b_size: (Single, Single),
) -> (r: bool)
    ensures
        r == (Aabb { x: a_pos.0, y: a_pos.1, width: a_size.0, height: a_size.1 }).overlaps(
            Aabb { x: b_pos.0, y: b_pos.1, width: b_size.0, height: b_size.1 },
        ),
{
    let a = Aabb::new(a_pos.0, a_pos.1, a_size.0, a_size.1);
    let b = Aabb::new(b_pos.0, b_pos.1, b_size.0, b_size.1);
    check_aabb_overlap(&a, &b)
}

fn check_aabb_overlap(a: &Aabb, b: &Aabb) -> (r: bool)
    ensures
        r == a.overlaps(*b),
{
    if a.right().le(b.left()) || b.right().le(a.left()) {
        return false;
    }
    if a.bottom().le(b.top()) || b.bottom().le(a.top()) {
        return false;
    }
    true
}

/// Boxes of which the first ends exactly where the second begins, on the
/// x-axis, do not overlap.
pub proof fn lemma_touching_boxes_do_not_overlap(a: Aabb, b: Aabb)
    requires
        a.right_edge().equals(b.x),
    ensures
        !a.overlaps(b),
        !b.overlaps(a),
{
}

} // verus!
