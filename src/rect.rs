use vstd::prelude::*;

verus! {

/// An axis-aligned rectangle given by its top-left corner and its size.
#[derive(Clone, Copy, Default, Debug)]
pub struct Rect<T> {
    pub left: T,
    pub top: T,
    pub width: T,
    pub height: T,
}

impl Rect<i32> {
    /// The x coordinate one past the right edge, as a mathematical integer.
    pub open spec fn right_spec(self) -> int {
        self.left + self.width
    }

    /// The y coordinate one past the bottom edge, as a mathematical integer.
    pub open spec fn bottom_spec(self) -> int {
        self.top + self.height
    }

    /// Standard half-open overlap test of two boxes.
    pub open spec fn overlaps_spec(self, other: Rect<i32>) -> bool {
        &&& self.left < other.right_spec()
        &&& other.left < self.right_spec()
        &&& self.top < other.bottom_spec()
        &&& other.top < self.bottom_spec()
    }

    pub fn new(left: i32, top: i32, width: i32, height: i32) -> (r: Rect<i32>)
        ensures
            r.left == left,
            r.top == top,
            r.width == width,
            r.height == height,
    {
        Rect { left, top, width, height }
    }

    pub fn overlaps(&self, rect: &Rect<i32>) -> (r: bool)
        ensures
            r == self.overlaps_spec(*rect),
    {
        (self.left as i64) < rect.left as i64 + rect.width as i64
            && (rect.left as i64) < self.left as i64 + self.width as i64
            && (self.top as i64) < rect.top as i64 + rect.height as i64
            && (rect.top as i64) < self.top as i64 + self.height as i64
    }

    pub fn right(&self) -> (r: i32)
        requires
            i32::MIN <= self.right_spec() <= i32::MAX,
        ensures
            r == self.right_spec(),
    {
        self.left + self.width
    }

    pub fn bottom(&self) -> (r: i32)
        requires
            i32::MIN <= self.bottom_spec() <= i32::MAX,
        ensures
            r == self.bottom_spec(),
    {
        self.top + self.height
    }
}

} // verus!
