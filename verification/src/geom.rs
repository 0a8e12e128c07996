use vstd::prelude::*;

verus! {

/// Saturating addition on the range of `i64`.
pub open spec fn sat_add(a: int, b: int) -> int {
    if a + b > i64::MAX {
        i64::MAX as int
    } else if a + b < i64::MIN {
        i64::MIN as int
    } else {
        a + b
    }
}

/// Saturating subtraction on the range of `i64`.
pub open spec fn sat_sub(a: int, b: int) -> int {
    if a - b > i64::MAX {
        i64::MAX as int
    } else if a - b < i64::MIN {
        i64::MIN as int
    } else {
        a - b
    }
}

/// A physical length in millimeters, stored as an integer count of
/// thousandths of a millimeter so that all layout arithmetic is exact.
#[derive(Clone, Copy, Debug, PartialEq, Eq, Structural)]
pub struct Mm(pub i64);

impl Mm {
    /// The zero length.
    pub fn zero() -> (r: Mm)
        ensures
            r.0 == 0,
    {
        Mm(0)
    }

    /// Builds a length from a whole number of millimeters.
    pub fn from_mm(mm: i64) -> (r: Mm)
        requires
            -9_000_000_000_000_000 <= mm <= 9_000_000_000_000_000,
        ensures
            r.0 == mm * 1000,
    {
        Mm(mm * 1000)
    }

    /// Adds two lengths, saturating at the ends of the representable range.
    pub fn add_sat(self, other: Mm) -> (r: Mm)
        ensures
            r.0 == sat_add(self.0 as int, other.0 as int),
    {
        if other.0 >= 0 {
            if self.0 <= i64::MAX - other.0 {
                Mm(self.0 + other.0)
            } else {
                Mm(i64::MAX)
            }
        } else {
            if self.0 >= i64::MIN - other.0 {
                Mm(self.0 + other.0)
            } else {
                Mm(i64::MIN)
            }
        }
    }

    /// Subtracts a length, saturating at the ends of the representable range.
    pub fn sub_sat(self, other: Mm) -> (r: Mm)
        ensures
            r.0 == sat_sub(self.0 as int, other.0 as int),
    {
        if other.0 <= 0 {
            if other.0 == i64::MIN {
                // -i64::MIN does not exist; subtracting it adds a huge amount.
                if self.0 <= -2 {
                    Mm(self.0 - other.0)
                } else {
                    Mm(i64::MAX)
                }
            } else if self.0 <= i64::MAX + other.0 {
                Mm(self.0 - other.0)
            } else {
                Mm(i64::MAX)
            }
        } else {
            if self.0 >= i64::MIN + other.0 {
                Mm(self.0 - other.0)
            } else {
                Mm(i64::MIN)
            }
        }
    }

    /// The larger of two lengths.
    pub open spec fn spec_max(self, other: Mm) -> Mm {
        if self.0 >= other.0 {
            self
        } else {
            other
        }
    }

    /// The smaller of two lengths.
    pub open spec fn spec_min(self, other: Mm) -> Mm {
        if self.0 <= other.0 {
            self
        } else {
            other
        }
    }

    /// The larger of two lengths.
    pub fn max_mm(self, other: Mm) -> (r: Mm)
        ensures
            r.0 == if self.0 >= other.0 {
                self.0
            } else {
                other.0
            },
    {
        if self.0 >= other.0 {
            self
        } else {
            other
        }
    }

    /// The smaller of two lengths.
    pub fn min_mm(self, other: Mm) -> (r: Mm)
        ensures
            r.0 == if self.0 <= other.0 {
                self.0
            } else {
                other.0
            },
    {
        if self.0 <= other.0 {
            self
        } else {
            other
        }
    }

    /// Half of a non-negative length, rounded down.
    pub fn half(self) -> (r: Mm)
        requires
            self.0 >= 0,
        ensures
            r.0 == self.0 as int / 2,
    {
        Mm(self.0 / 2)
    }

    /// True when this length is strictly positive.
    pub fn is_positive(self) -> (r: bool)
        ensures
            r == (self.0 > 0),
    {
        self.0 > 0
    }
}

/// A point relative to the origin of an area, in millimeters.
#[derive(Clone, Copy, Debug, PartialEq, Eq, Structural)]
pub struct Position {
    /// Horizontal distance from the left edge.
    pub x: Mm,
    /// Vertical distance from the top edge.
    pub y: Mm,
}

impl Position {
    /// Builds a position from its two coordinates.
    pub fn new(x: Mm, y: Mm) -> (r: Position)
        ensures
            r.x == x,
            r.y == y,
    {
        Position { x, y }
    }

    /// The origin.
    pub fn origin() -> (r: Position)
        ensures
            r.x.0 == 0,
            r.y.0 == 0,
    {
        Position { x: Mm(0), y: Mm(0) }
    }

    /// Componentwise saturating translation.
    pub fn shifted(self, d: Position) -> (r: Position)
        ensures
            r.x.0 == sat_add(self.x.0 as int, d.x.0 as int),
            r.y.0 == sat_add(self.y.0 as int, d.y.0 as int),
    {
        Position { x: self.x.add_sat(d.x), y: self.y.add_sat(d.y) }
    }
}

/// The extent of a rectangular region, in millimeters.
#[derive(Clone, Copy, Debug, PartialEq, Eq, Structural)]
pub struct Size {
    /// Horizontal extent.
    pub width: Mm,
    /// Vertical extent.
    pub height: Mm,
}

impl Size {
    /// Builds a size from its two extents.
    pub fn new(width: Mm, height: Mm) -> (r: Size)
        ensures
            r.width == width,
            r.height == height,
    {
        Size { width, height }
    }

    /// The empty size.
    pub fn empty() -> (r: Size)
        ensures
            r.width.0 == 0,
            r.height.0 == 0,
    {
        Size { width: Mm(0), height: Mm(0) }
    }

    /// Combines the sizes of two regions stacked on top of each other: the
    /// width is the maximum of the two widths and the height is the sum of
    /// the two heights.
    pub fn stack_vertical(self, other: Size) -> (r: Size)
        ensures
            r.width.0 == if self.width.0 >= other.width.0 {
                self.width.0
            } else {
                other.width.0
            },
            r.height.0 == sat_add(self.height.0 as int, other.height.0 as int),
    {
        Size { width: self.width.max_mm(other.width), height: self.height.add_sat(other.height) }
    }
}

/// The margins of a rectangular region, in millimeters.
#[derive(Clone, Copy, Debug, PartialEq, Eq, Structural)]
pub struct Margins {
    /// Margin at the top edge.
    pub top: Mm,
    /// Margin at the right edge.
    pub right: Mm,
    /// Margin at the bottom edge.
    pub bottom: Mm,
    /// Margin at the left edge.
    pub left: Mm,
}

impl Margins {
    /// Builds margins from the four edge values, given clockwise starting at
    /// the top.
    pub fn trbl(top: Mm, right: Mm, bottom: Mm, left: Mm) -> (r: Margins)
        ensures
            r.top == top,
            r.right == right,
            r.bottom == bottom,
            r.left == left,
    {
        Margins { top, right, bottom, left }
    }

    /// Margins of zero on every edge.
    pub fn none() -> (r: Margins)
        ensures
            r.top.0 == 0 && r.right.0 == 0 && r.bottom.0 == 0 && r.left.0 == 0,
    {
        Margins { top: Mm(0), right: Mm(0), bottom: Mm(0), left: Mm(0) }
    }
}

} // verus!
