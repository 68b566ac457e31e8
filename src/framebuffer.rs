//! A software framebuffer: a row-major grid of colors with a background
//! color to clear to and a current color to draw with.

use vstd::prelude::*;
use crate::color::{Rgba, rgba};
use crate::render::MAX_SCREEN;

verus! {

/// A `width` by `height` grid of pixels.
pub struct Framebuffer {
    pub width: i32,
    pub height: i32,
    color_buffer: Vec<Rgba>,
    background_color: Rgba,
    current_color: Rgba,
}

impl Framebuffer {
    /// The pixels, row by row.
    pub closed spec fn pixels(&self) -> Seq<Rgba> {
        self.color_buffer@
    }

    /// The color `clear` paints.
    pub closed spec fn background(&self) -> Rgba {
        self.background_color
    }

    /// The color `set_pixel` paints.
    pub closed spec fn current(&self) -> Rgba {
        self.current_color
    }

    /// The width, in pixels.
    pub closed spec fn w(&self) -> int {
        self.width as int
    }

    /// The height, in pixels.
    pub closed spec fn h(&self) -> int {
        self.height as int
    }

    /// The buffer holds one color per pixel.
    pub open spec fn wf(&self) -> bool {
        &&& 0 < self.w() <= MAX_SCREEN
        &&& 0 < self.h() <= MAX_SCREEN
        &&& self.pixels().len() == self.w() * self.h()
    }

    fn filled(n: usize, c: Rgba) -> (r: Vec<Rgba>)
        ensures
            r@.len() == n,
            forall|k: int| 0 <= k < n ==> #[trigger] r@[k] == c,
    {
        let mut v: Vec<Rgba> = Vec::new();
        let mut k: usize = 0;
        while k < n
            invariant
                k <= n,
                v@.len() == k,
                forall|m: int| 0 <= m < k ==> #[trigger] v@[m] == c,
            decreases n - k,
        {
            v.push(c);
            k = k + 1;
        }
        v
    }

    /// A framebuffer of `width` by `height` pixels, all of the background
    /// color, drawing in white.
    pub fn new(width: i32, height: i32, background_color: Rgba) -> (r: Framebuffer)
        requires
            0 < width <= MAX_SCREEN,
            0 < height <= MAX_SCREEN,
        ensures
            r.wf(),
            r.w() == width,
            r.h() == height,
            r.background() == background_color,
            r.current() == rgba(255, 255, 255, 255),
            forall|k: int| 0 <= k < r.pixels().len() ==> #[trigger] r.pixels()[k] == background_color,
    {
        assert(width * height <= MAX_SCREEN * MAX_SCREEN) by (nonlinear_arith)
            requires
                0 < width <= MAX_SCREEN,
                0 < height <= MAX_SCREEN,
        ;
        let n: usize = (width as usize) * (height as usize);
        Framebuffer {
            width,
            height,
            color_buffer: Self::filled(n, background_color),
            background_color,
            current_color: Rgba::new(255, 255, 255, 255),
        }
    }

    /// Paints every pixel with the background color.
    pub fn clear(&mut self)
        requires
            old(self).wf(),
        ensures
            final(self).wf(),
            final(self).w() == old(self).w(),
            final(self).h() == old(self).h(),
            final(self).background() == old(self).background(),
            final(self).current() == old(self).current(),
            forall|k: int| 0 <= k < final(self).pixels().len() ==> #[trigger] final(self).pixels()[k] == old(self).background(),
    {
        let n = self.color_buffer.len();
        self.color_buffer = Self::filled(n, self.background_color);
    }

    /// Paints pixel `(x, y)` with the current color; a pixel off the
    /// buffer is ignored.
    pub fn set_pixel(&mut self, x: i32, y: i32)
        requires
            old(self).wf(),
        ensures
            final(self).wf(),
            final(self).w() == old(self).w(),
            final(self).h() == old(self).h(),
            final(self).background() == old(self).background(),
            final(self).current() == old(self).current(),
            final(self).pixels() == (if 0 <= x < old(self).w() && 0 <= y < old(self).h() {
                old(self).pixels().update(y * old(self).w() + x, old(self).current())
            } else {
                old(self).pixels()
            }),
    {
        if x >= 0 && x < self.width && y >= 0 && y < self.height {
            assert(0 <= y * self.width + x < self.width * self.height) by (nonlinear_arith)
                requires
                    0 <= x < self.width,
                    0 <= y < self.height,
            ;
            let n = self.color_buffer.len();
            assert((y as usize) * (self.width as usize) + (x as usize) < n) by (nonlinear_arith)
                requires
                    0 <= x < self.width,
                    0 <= y < self.height,
                    n == self.width * self.height,
            ;
            let idx: usize = (y as usize) * (self.width as usize) + (x as usize);
            let c = self.current_color;
            self.color_buffer.set(idx, c);
        }
    }

    /// The color of pixel `(x, y)`.
    pub fn get_pixel(&self, x: i32, y: i32) -> (r: Rgba)
        requires
            self.wf(),
            0 <= x < self.w(),
            0 <= y < self.h(),
        ensures
            r == self.pixels()[y * self.w() + x],
    {
        assert(0 <= y * self.width + x < self.width * self.height) by (nonlinear_arith)
            requires
                0 <= x < self.width,
                0 <= y < self.height,
        ;
        let n = self.color_buffer.len();
        assert((y as usize) * (self.width as usize) + (x as usize) < n) by (nonlinear_arith)
            requires
                0 <= x < self.width,
                0 <= y < self.height,
                n == self.width * self.height,
        ;
        self.color_buffer[(y as usize) * (self.width as usize) + (x as usize)]
    }

    /// Sets the color that `clear` paints.
    pub fn set_background_color(&mut self, color: Rgba)
        ensures
            final(self).background() == color,
            final(self).current() == old(self).current(),
            final(self).pixels() == old(self).pixels(),
            final(self).w() == old(self).w(),
            final(self).h() == old(self).h(),
    {
        self.background_color = color;
    }

    /// Sets the color that `set_pixel` paints.
    pub fn set_current_color(&mut self, color: Rgba)
        ensures
            final(self).current() == color,
            final(self).background() == old(self).background(),
            final(self).pixels() == old(self).pixels(),
            final(self).w() == old(self).w(),
            final(self).h() == old(self).h(),
    {
        self.current_color = color;
    }
}

} // verus!
