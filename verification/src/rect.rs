//! Axis-aligned regions of the framebuffer, as the wire protocol addresses
//! them: unsigned offsets from the top-left corner plus unsigned extents.

use vstd::prelude::*;

verus! {

/// An axis-aligned region: `left`/`top` are offsets from the framebuffer's
/// top-left corner, `width`/`height` its extents in pixels.
#[derive(Clone, Copy, Debug, PartialEq, Eq, Structural)]
pub struct Rect {
    pub left: u16,
    pub top: u16,
    pub width: u16,
    pub height: u16,
}

impl Rect {
    /// The number of pixels the region covers.
    pub open spec fn spec_area(self) -> int {
        self.width * self.height
    }

    /// True when the region lies entirely inside a `fb_width x fb_height`
    /// framebuffer.
    pub open spec fn spec_within(self, fb_width: int, fb_height: int) -> bool {
        self.left + self.width <= fb_width && self.top + self.height <= fb_height
    }

    /// A region covering a whole `width x height` framebuffer.
    pub fn full_extent(width: u16, height: u16) -> (r: Rect)
        ensures
            r == (Rect { left: 0, top: 0, width, height }),
    {
        Rect { left: 0, top: 0, width, height }
    }

    /// The number of pixels the region covers.
    pub fn area(&self) -> (n: u64)
        ensures
            n == self.spec_area(),
    {
        proof {
            assert((self.width as u64) * (self.height as u64) <= 0xffff * 0xffff)
                by (nonlinear_arith)
                requires
                    self.width <= 0xffff,
                    self.height <= 0xffff,
            ;
        }
        (self.width as u64) * (self.height as u64)
    }
}

} // verus!
