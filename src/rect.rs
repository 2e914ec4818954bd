use vstd::prelude::*;

verus! {

/// An axis-aligned rectangle in pixels: its top-left corner and its size.
#[derive(Debug, Clone, Copy, PartialEq, Eq, Structural)]
pub struct Rect {
    pub x: i32,
    pub y: i32,
    pub width: u32,
    pub height: u32,
}

impl Rect {
    /// Whether the right and bottom edges are representable as `i32`.
    pub open spec fn edges_fit(self) -> bool {
        &&& self.x + self.width <= i32::MAX
        &&& self.y + self.height <= i32::MAX
    }

    /// Whether the point lies inside: left and top edges included, right and
    /// bottom edges excluded.
    pub open spec fn holds(self, px: int, py: int) -> bool {
        &&& self.x <= px < self.x + self.width
        &&& self.y <= py < self.y + self.height
    }

    pub fn new(x: i32, y: i32, width: u32, height: u32) -> (r: Self)
        ensures
            r == (Rect { x, y, width, height }),
    {
        Self { x, y, width, height }
    }

    /// The x-position of the left side.
    pub fn left(&self) -> (r: i32)
        ensures
            r == self.x,
    {
        self.x
    }

    /// The x-position of the right side.
    pub fn right(&self) -> (r: i32)
        requires
            self.edges_fit(),
        ensures
            r == self.x + self.width,
    {
        (self.x as i64 + self.width as i64) as i32
    }

    /// The y-position of the top side.
    pub fn top(&self) -> (r: i32)
        ensures
            r == self.y,
    {
        self.y
    }

    /// The y-position of the bottom side.
    pub fn bottom(&self) -> (r: i32)
        requires
            self.edges_fit(),
        ensures
            r == self.y + self.height,
    {
        (self.y as i64 + self.height as i64) as i32
    }

    pub fn width(&self) -> (r: u32)
        ensures
            r == self.width,
    {
        self.width
    }

    pub fn height(&self) -> (r: u32)
        ensures
            r == self.height,
    {
        self.height
    }

    /// Whether the point (x, y) lies inside the rectangle.
    pub fn contains_point(&self, point: (i32, i32)) -> (r: bool)
        ensures
            r == self.holds(point.0 as int, point.1 as int),
    {
        let (x, y) = point;
        let inside_x = x >= self.x && (x as i64) < self.x as i64 + self.width as i64;
        inside_x && (y >= self.y && (y as i64) < self.y as i64 + self.height as i64)
    }
}

/// A point in pixels.
#[derive(Debug, Clone, Copy, PartialEq, Eq, Structural)]
pub struct Point {
    pub x: i32,
    pub y: i32,
}

impl Point {
    pub fn new(x: i32, y: i32) -> (r: Self)
        ensures
            r == (Point { x, y }),
    {
        Self { x, y }
    }
}

} // verus!
