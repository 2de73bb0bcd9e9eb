//! Axis-aligned rectangles used by the room-based map builders.

use vstd::prelude::*;

verus! {

#[derive(Clone, Copy, PartialEq, Eq, Structural, Debug)]
pub struct Rect {
    pub x1: i32,
    pub y1: i32,
    pub x2: i32,
    pub y2: i32,
}

impl Rect {
    /// Corners in order and inside a box comfortably clear of overflow.
    pub open spec fn wf(self) -> bool {
        &&& 0 <= self.x1 <= self.x2 <= 1000000
        &&& 0 <= self.y1 <= self.y2 <= 1000000
    }

    pub fn new(x: i32, y: i32, w: i32, h: i32) -> (r: Rect)
        requires
            0 <= x,
            0 <= y,
            0 <= w,
            0 <= h,
            x + w <= 1000000,
            y + h <= 1000000,
        ensures
            r.x1 == x,
            r.y1 == y,
            r.x2 == x + w,
            r.y2 == y + h,
            r.wf(),
    {
        Rect { x1: x, y1: y, x2: x + w, y2: y + h }
    }

    /// Whether the two rectangles overlap (touching edges count).
    pub open spec fn spec_intersect(self, other: Rect) -> bool {
        self.x1 <= other.x2 && self.x2 >= other.x1 && self.y1 <= other.y2 && self.y2 >= other.y1
    }

    pub fn intersect(&self, other: &Rect) -> (r: bool)
        ensures
            r == self.spec_intersect(*other),
    {
        self.x1 <= other.x2 && self.x2 >= other.x1 && self.y1 <= other.y2 && self.y2 >= other.y1
    }

    pub open spec fn spec_center(self) -> (int, int) {
        ((self.x1 + self.x2) / 2, (self.y1 + self.y2) / 2)
    }

    pub fn center(&self) -> (r: (i32, i32))
        requires
            self.wf(),
        ensures
            r.0 == self.spec_center().0,
            r.1 == self.spec_center().1,
            self.x1 <= r.0 <= self.x2,
            self.y1 <= r.1 <= self.y2,
            self.x2 - self.x1 >= 2 ==> self.x1 + 1 <= r.0 && r.0 <= self.x2 - 1,
            self.y2 - self.y1 >= 2 ==> self.y1 + 1 <= r.1 && r.1 <= self.y2 - 1,
    {
        proof {
            vstd::arithmetic::div_mod::lemma_fundamental_div_mod(
                self.x1 as int + self.x2 as int,
                2,
            );
            vstd::arithmetic::div_mod::lemma_mod_bound(self.x1 as int + self.x2 as int, 2);
            vstd::arithmetic::div_mod::lemma_fundamental_div_mod(
                self.y1 as int + self.y2 as int,
                2,
            );
            vstd::arithmetic::div_mod::lemma_mod_bound(self.y1 as int + self.y2 as int, 2);
        }
        let cx: i32 = (((self.x1 + self.x2) as u32) / 2) as i32;
        let cy: i32 = (((self.y1 + self.y2) as u32) / 2) as i32;
        (cx, cy)
    }
}

} // verus!
