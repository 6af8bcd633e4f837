use vstd::prelude::*;

verus! {

/// An axis-aligned rectangle given by its corner (`x`, `y`), its width and
/// its height.
#[derive(Copy, Clone, Debug)]
pub struct Rectangle<T: Copy> {
    x: T,
    y: T,
    width: T,
    height: T,
}

impl<T: Copy> Rectangle<T> {
    pub closed spec fn x_of(&self) -> T {
        self.x
    }

    pub closed spec fn y_of(&self) -> T {
        self.y
    }

    pub closed spec fn width_of(&self) -> T {
        self.width
    }

    pub closed spec fn height_of(&self) -> T {
        self.height
    }

    pub fn new(x: T, y: T, width: T, height: T) -> (r: Self)
        ensures
            r.x_of() == x,
            r.y_of() == y,
            r.width_of() == width,
            r.height_of() == height,
    {
        Self { x, y, width, height }
    }

    pub fn x(&self) -> (r: T)
        ensures
            r == self.x_of(),
    {
        self.x
    }

    pub fn y(&self) -> (r: T)
        ensures
            r == self.y_of(),
    {
        self.y
    }

    pub fn width(&self) -> (r: T)
        ensures
            r == self.width_of(),
    {
        self.width
    }

    pub fn height(&self) -> (r: T)
        ensures
            r == self.height_of(),
    {
        self.height
    }

    pub fn set_x(&mut self, x: T)
        ensures
            *final(self) == Rectangle::new_spec(x, old(self).y_of(), old(self).width_of(), old(self).height_of()),
            final(self).x_of() == x,
            final(self).y_of() == old(self).y_of(),
            final(self).width_of() == old(self).width_of(),
            final(self).height_of() == old(self).height_of(),
    {
        self.x = x;
    }

    pub fn set_y(&mut self, y: T)
        ensures
            *final(self) == Rectangle::new_spec(old(self).x_of(), y, old(self).width_of(), old(self).height_of()),
            final(self).x_of() == old(self).x_of(),
            final(self).y_of() == y,
            final(self).width_of() == old(self).width_of(),
            final(self).height_of() == old(self).height_of(),
    {
        self.y = y;
    }

    pub fn set_width(&mut self, width: T)
        ensures
            *final(self) == Rectangle::new_spec(old(self).x_of(), old(self).y_of(), width, old(self).height_of()),
            final(self).x_of() == old(self).x_of(),
            final(self).y_of() == old(self).y_of(),
            final(self).width_of() == width,
            final(self).height_of() == old(self).height_of(),
    {
        self.width = width;
    }

    pub fn set_height(&mut self, height: T)
        ensures
            *final(self) == Rectangle::new_spec(old(self).x_of(), old(self).y_of(), old(self).width_of(), height),
            final(self).x_of() == old(self).x_of(),
            final(self).y_of() == old(self).y_of(),
            final(self).width_of() == old(self).width_of(),
            final(self).height_of() == height,
    {
        self.height = height;
    }

    /// The rectangle with the given corner and size.
    pub closed spec fn new_spec(x: T, y: T, width: T, height: T) -> Self {
        Rectangle { x, y, width, height }
    }

    /// The rectangle with a given corner and size has that corner and size.
    pub broadcast proof fn lemma_new_spec_fields(x: T, y: T, width: T, height: T)
        ensures
            #[trigger] Rectangle::new_spec(x, y, width, height).x_of() == x,
            Rectangle::new_spec(x, y, width, height).y_of() == y,
            Rectangle::new_spec(x, y, width, height).width_of() == width,
            Rectangle::new_spec(x, y, width, height).height_of() == height,
    {
    }
}

/// Whether two rectangles, given by corner and size, overlap with a
/// positive area: each one's far edge lies strictly past the other's near
/// edge, on both axes.
pub open spec fn overlaps(ax: int, ay: int, aw: int, ah: int, bx: int, by: int, bw: int, bh: int) -> bool {
    &&& ax + aw > bx
    &&& ax < bx + bw
    &&& ay + ah > by
    &&& ay < by + bh
}

/// Overlap of rectangles does not depend on the order in which they are
/// given.
pub proof fn law_overlap_symmetric(ax: int, ay: int, aw: int, ah: int, bx: int, by: int, bw: int, bh: int)
    ensures
        overlaps(ax, ay, aw, ah, bx, by, bw, bh) == overlaps(bx, by, bw, bh, ax, ay, aw, ah),
{
}

/// A rectangle of positive width and height overlaps itself.
pub proof fn law_overlap_reflexive(x: int, y: int, w: int, h: int)
    requires
        w > 0,
        h > 0,
    ensures
        overlaps(x, y, w, h, x, y, w, h),
{
}

impl Rectangle<i32> {
    /// The far x edge, `x + width`.
    pub fn xw(&self) -> (r: i32)
        requires
            i32::MIN <= self.x_of() + self.width_of() <= i32::MAX,
        ensures
            r == self.x_of() + self.width_of(),
    {
        self.x + self.width
    }

    /// The far y edge, `y + height`.
    pub fn yh(&self) -> (r: i32)
        requires
            i32::MIN <= self.y_of() + self.height_of() <= i32::MAX,
        ensures
            r == self.y_of() + self.height_of(),
    {
        self.y + self.height
    }

    pub fn intersects(&self, other: &Self) -> (r: bool)
        requires
            i32::MIN <= self.x_of() + self.width_of() <= i32::MAX,
            i32::MIN <= self.y_of() + self.height_of() <= i32::MAX,
            i32::MIN <= other.x_of() + other.width_of() <= i32::MAX,
            i32::MIN <= other.y_of() + other.height_of() <= i32::MAX,
        ensures
            r == overlaps(
                self.x_of() as int,
                self.y_of() as int,
                self.width_of() as int,
                self.height_of() as int,
                other.x_of() as int,
                other.y_of() as int,
                other.width_of() as int,
                other.height_of() as int,
            ),
    {
        self.xw() > other.x() && self.x() < other.xw() && self.yh() > other.y() && self.y() < other.yh()
    }
}

impl Rectangle<u32> {
    /// The far x edge, `x + width`.
    pub fn xw(&self) -> (r: u32)
        requires
            self.x_of() + self.width_of() <= u32::MAX,
        ensures
            r == self.x_of() + self.width_of(),
    {
        self.x + self.width
    }

    /// The far y edge, `y + height`.
    pub fn yh(&self) -> (r: u32)
        requires
            self.y_of() + self.height_of() <= u32::MAX,
        ensures
            r == self.y_of() + self.height_of(),
    {
        self.y + self.height
    }

    pub fn intersects(&self, other: &Self) -> (r: bool)
        requires
            self.x_of() + self.width_of() <= u32::MAX,
            self.y_of() + self.height_of() <= u32::MAX,
            other.x_of() + other.width_of() <= u32::MAX,
            other.y_of() + other.height_of() <= u32::MAX,
        ensures
            r == overlaps(
                self.x_of() as int,
                self.y_of() as int,
                self.width_of() as int,
                self.height_of() as int,
                other.x_of() as int,
                other.y_of() as int,
                other.width_of() as int,
                other.height_of() as int,
            ),
    {
        self.xw() > other.x() && self.x() < other.xw() && self.yh() > other.y() && self.y() < other.yh()
    }
}

} // verus!
