//! Rectangles of terminal cells and how screens are laid out in them.
use vstd::prelude::*;

verus! {

/// A rectangle of terminal cells: its top-left corner and its size.
#[derive(Copy, Clone, Debug, PartialEq, Eq, Structural)]
pub struct Rect {
    pub x: u16,
    pub y: u16,
    pub width: u16,
    pub height: u16,
}

pub open spec fn sat_add(a: u16, b: u16) -> u16 {
    if a + b > u16::MAX { u16::MAX } else { (a + b) as u16 }
}

pub open spec fn sat_sub(a: u16, b: u16) -> u16 {
    if a < b { 0 } else { (a - b) as u16 }
}

pub open spec fn min_u16(a: u16, b: u16) -> u16 {
    if a < b { a } else { b }
}

/// The rectangle at `(x, y)` of the given size, its width and height cut so
/// that its right and bottom edges stay within `u16`.
pub open spec fn spec_rect(x: u16, y: u16, width: u16, height: u16) -> Rect {
    Rect { x, y, width: (sat_add(x, width) - x) as u16, height: (sat_add(y, height) - y) as u16 }
}

impl Rect {
    pub fn new(x: u16, y: u16, width: u16, height: u16) -> (r: Rect)
        ensures
            r == spec_rect(x, y, width, height),
            r.x + r.width <= u16::MAX,
            r.y + r.height <= u16::MAX,
            r.width <= width,
            r.height <= height,
            r.x == x && r.y == y,
            x + width <= u16::MAX ==> r.width == width,
            y + height <= u16::MAX ==> r.height == height,
    {
        Rect { x, y, width: x.saturating_add(width) - x, height: y.saturating_add(height) - y }
    }

    pub open spec fn spec_is_empty(self) -> bool {
        self.width == 0 || self.height == 0
    }

    pub open spec fn spec_right(self) -> u16 {
        sat_add(self.x, self.width)
    }

    pub open spec fn spec_bottom(self) -> u16 {
        sat_add(self.y, self.height)
    }

    /// Whether the rectangle holds no cell.
    pub fn is_empty(&self) -> (b: bool)
        ensures
            b == self.spec_is_empty(),
            b == (self.width == 0 || self.height == 0),
    {
        self.width == 0 || self.height == 0
    }

    /// The first column right of the rectangle, at most `u16::MAX`.
    pub fn right(&self) -> (r: u16)
        ensures
            r == self.spec_right(),
            r == (if self.x + self.width > u16::MAX { u16::MAX as int } else { self.x + self.width }),
    {
        self.x.saturating_add(self.width)
    }

    /// The first row below the rectangle, at most `u16::MAX`.
    pub fn bottom(&self) -> (r: u16)
        ensures
            r == self.spec_bottom(),
            r == (if self.y + self.height > u16::MAX { u16::MAX as int } else { self.y + self.height }),
    {
        self.y.saturating_add(self.height)
    }
}

/// The rectangle of at most `max_width` by `max_height` cells centred in `area`
/// (rounded towards the top left).
pub open spec fn spec_centered(area: Rect, max_width: u16, max_height: u16) -> Rect {
    let width = min_u16(area.width, max_width);
    let height = min_u16(area.height, max_height);
    spec_rect(
        (area.x + (area.width - width) / 2) as u16,
        (area.y + (area.height - height) / 2) as u16,
        width,
        height,
    )
}

/// Whether centring in `area` stays within `u16` coordinates.
pub open spec fn centering_fits(area: Rect, max_width: u16, max_height: u16) -> bool {
    &&& area.x + (area.width - min_u16(area.width, max_width)) / 2 <= u16::MAX
    &&& area.y + (area.height - min_u16(area.height, max_height)) / 2 <= u16::MAX
}

/// Centres a panel of at most `max_width` by `max_height` cells in `area`.
pub fn centered(area: Rect, max_width: u16, max_height: u16) -> (r: Rect)
    requires
        centering_fits(area, max_width, max_height),
    ensures
        r == spec_centered(area, max_width, max_height),
        r.width <= max_width,
        r.height <= max_height,
        area.x <= r.x,
        area.y <= r.y,
        area.x + area.width <= u16::MAX ==> r.x + r.width <= area.x + area.width,
        area.y + area.height <= u16::MAX ==> r.y + r.height <= area.y + area.height,
        area.x + area.width <= u16::MAX ==> {
            &&& r.width == min_u16(area.width, max_width)
            &&& r.x - area.x <= (area.x + area.width) - (r.x + r.width) <= r.x - area.x + 1
        },
        area.y + area.height <= u16::MAX ==> {
            &&& r.height == min_u16(area.height, max_height)
            &&& r.y - area.y <= (area.y + area.height) - (r.y + r.height) <= r.y - area.y + 1
        },
{
    let width = if area.width < max_width { area.width } else { max_width };
    let height = if area.height < max_height { area.height } else { max_height };
    Rect::new(
        area.x + area.width.saturating_sub(width) / 2,
        area.y + area.height.saturating_sub(height) / 2,
        width,
        height,
    )
}


/// Whether centring a panel of at most `max_width` by `max_height` cells in
/// `area` stays within `u16` coordinates.
pub fn fits_centered(area: Rect, max_width: u16, max_height: u16) -> (r: bool)
    ensures
        r == centering_fits(area, max_width, max_height),
{
    let width = if area.width < max_width { area.width } else { max_width };
    let height = if area.height < max_height { area.height } else { max_height };
    (area.x as u32) + ((area.width - width) / 2) as u32 <= 65535
        && (area.y as u32) + ((area.height - height) / 2) as u32 <= 65535
}

} // verus!
