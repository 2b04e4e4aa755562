use vstd::prelude::*;
use crate::color::Color;

verus! {

/// Fixed-point sub-units per screen pixel and per grid pixel of pan. Screen
/// positions and the pan anchor are carried in these sub-units so that the
/// camera transforms stay exact integer arithmetic.
pub const SUBPIXEL: u64 = 1000;

/// Zoom lower clamp: a grid square is never drawn smaller than this many
/// screen pixels.
pub const MIN_SQUARE_SIZE: u64 = 2;

/// Zoom upper clamp.
pub const MAX_SQUARE_SIZE: u64 = 100;

/// Largest magnitude accepted for a screen coordinate, in sub-units.
pub const SCREEN_LIMIT: i64 = 0x4000_0000_0000;

/// Largest pan anchor value, in sub-units (largest grid side times `SUBPIXEL`).
pub const PAN_LIMIT: u64 = 2_048_000;

/// Bound on the pixel coordinates that `screen_to_pixel` can produce.
pub const PIXEL_BOUND: i64 = 0x20_0000_0000;

/// Largest pixel coordinate magnitude accepted by `pixel_to_screen`.
pub const PIXEL_LIMIT: i64 = 0x40_0000_0000;

/// Pan sensitivity, as the fraction 4/5.
pub const SCROLL_SENSITIVITY_NUM: i64 = 4;
pub const SCROLL_SENSITIVITY_DEN: i64 = 5;

/// A screen-space position in fixed-point sub-units (`SUBPIXEL` per pixel).
#[derive(Clone, Copy, PartialEq, Eq, Structural, Debug)]
pub struct ScreenPos {
    pub x: i64,
    pub y: i64,
}

/// A renderable axis-aligned square: `x`/`y` are the screen position of its
/// top-left corner and `size` its side length, all in sub-units.
#[derive(Clone, Copy, PartialEq, Eq, Structural, Debug)]
pub struct Square {
    pub x: i64,
    pub y: i64,
    pub size: i64,
    pub color: Color,
}

impl Square {
    /// `self` with only the fill color replaced, as a single-pixel write
    /// leaves the geometry of a cache entry untouched.
    pub open spec fn spec_recolored(self, color: Color) -> Square {
        Square { x: self.x, y: self.y, size: self.size, color }
    }

    /// Placeholder cache entry used before the first full cache rebuild.
    pub open spec fn spec_placeholder() -> Square {
        Square { x: 0, y: 0, size: 0, color: Color::spec_transparent() }
    }

    #[verifier::when_used_as_spec(spec_placeholder)]
    pub fn placeholder() -> (s: Square)
        ensures
            s == Square::spec_placeholder(),
    {
        Square { x: 0, y: 0, size: 0, color: Color::transparent() }
    }
}

/// An axis-aligned screen-space rectangle (sub-units), used for the
/// rectangle tool's preview highlight.
#[derive(Clone, Copy, PartialEq, Eq, Structural, Debug)]
pub struct ScreenRect {
    pub min: ScreenPos,
    pub max: ScreenPos,
    pub color: Color,
}

/// Maps between screen-space coordinates (sub-units) and integer pixel-grid
/// coordinates, given the current zoom (`square_size`, in whole screen pixels),
/// pan anchor (`pixel_center`, grid pixels in sub-units) and viewport center
/// (`screen_center`, sub-units).
#[derive(Clone, Copy, PartialEq, Eq, Structural, Debug)]
pub struct Camera {
    pub square_size: u64,
    pub pixel_center_x: u64,
    pub pixel_center_y: u64,
    pub screen_center: ScreenPos,
}

/// The quotient of a magnitude-bounded dividend is itself bounded.
pub proof fn lemma_div_bound(a: int, b: int, m: int)
    requires
        1 <= b,
        0 <= m,
        -m <= a <= m,
    ensures
        -(m / b) - 1 <= a / b <= m / b,
{
    let q = a / b;
    let r = a % b;
    let mq = m / b;
    vstd::arithmetic::div_mod::lemma_fundamental_div_mod(a, b);
    vstd::arithmetic::div_mod::lemma_fundamental_div_mod(m, b);
    assert(b * q == q * b) by (nonlinear_arith);
    assert(b * mq == mq * b) by (nonlinear_arith);
    assert((mq + 1) * b == mq * b + b) by (nonlinear_arith);
    assert((-mq - 2) * b == -(mq * b) - 2 * b) by (nonlinear_arith);
    if q > mq {
        vstd::arithmetic::mul::lemma_mul_inequality(mq + 1, q, b);
        assert(false);
    }
    if q < -mq - 1 {
        vstd::arithmetic::mul::lemma_mul_inequality(q, -mq - 2, b);
        assert(false);
    }
}

/// Floor division of `a` by a positive `b`; agrees with the mathematical
/// `a / b` (Euclidean division) of the specification language.
pub fn floor_div(a: i64, b: i64) -> (q: i64)
    requires
        1 <= b <= 0x1000_0000_0000_0000,
        -0x1000_0000_0000_0000 <= a <= 0x1000_0000_0000_0000,
    ensures
        q == a as int / b as int,
{
    let bu: u64 = b as u64;
    if a >= 0 {
        let qu: u64 = (a as u64) / bu;
        qu as i64
    } else {
        let m: u64 = (-a) as u64;
        let qm: u64 = (m + bu - 1) / bu;
        proof {
            let mi = m as int;
            let bi = b as int;
            let d = mi / bi;
            let r = mi % bi;
            vstd::arithmetic::div_mod::lemma_fundamental_div_mod(mi, bi);
            assert((-d) * bi == -(bi * d)) by (nonlinear_arith);
            assert((d + 1) * bi == bi * d + bi) by (nonlinear_arith);
            assert((-d - 1) * bi == -(bi * d) - bi) by (nonlinear_arith);
            if r == 0 {
                vstd::arithmetic::div_mod::lemma_fundamental_div_mod_converse(
                    mi + bi - 1, bi, d, bi - 1);
                vstd::arithmetic::div_mod::lemma_fundamental_div_mod_converse(
                    -mi, bi, -d, 0);
            } else {
                vstd::arithmetic::div_mod::lemma_fundamental_div_mod_converse(
                    mi + bi - 1, bi, d + 1, r - 1);
                vstd::arithmetic::div_mod::lemma_fundamental_div_mod_converse(
                    -mi, bi, -d - 1, bi - r);
            }
        }
        -(qm as i64)
    }
}

impl Camera {
    /// Structural bounds: zoom within its clamp range, pan anchor and viewport
    /// center within the fixed-point ranges the transforms are proved for.
    pub open spec fn wf(self) -> bool {
        &&& MIN_SQUARE_SIZE <= self.square_size <= MAX_SQUARE_SIZE
        &&& self.pixel_center_x <= PAN_LIMIT
        &&& self.pixel_center_y <= PAN_LIMIT
        &&& -SCREEN_LIMIT <= self.screen_center.x <= SCREEN_LIMIT
        &&& -SCREEN_LIMIT <= self.screen_center.y <= SCREEN_LIMIT
    }

    /// The pan anchor rounded to a whole grid pixel (round half up).
    pub open spec fn spec_rounded_center(pc: u64) -> int {
        (pc + SUBPIXEL / 2) as int / SUBPIXEL as int
    }

    /// Pixel x coordinate under the screen x coordinate `sx`.
    pub open spec fn spec_screen_to_pixel_x(self, sx: int) -> int {
        (sx - self.screen_center.x) / (self.square_size * SUBPIXEL) as int
            + Self::spec_rounded_center(self.pixel_center_x)
    }

    /// Pixel y coordinate under the screen y coordinate `sy`.
    pub open spec fn spec_screen_to_pixel_y(self, sy: int) -> int {
        (sy - self.screen_center.y) / (self.square_size * SUBPIXEL) as int
            + Self::spec_rounded_center(self.pixel_center_y)
    }

    /// Screen x coordinate (sub-units) of the left edge of pixel column `w`.
    pub open spec fn spec_pixel_to_screen_x(self, w: int) -> int {
        (w - Self::spec_rounded_center(self.pixel_center_x))
            * (self.square_size * SUBPIXEL) + self.screen_center.x
    }

    /// Screen y coordinate (sub-units) of the top edge of pixel row `h`.
    pub open spec fn spec_pixel_to_screen_y(self, h: int) -> int {
        (h - Self::spec_rounded_center(self.pixel_center_y))
            * (self.square_size * SUBPIXEL) + self.screen_center.y
    }

    /// The renderable square for pixel `(w, h)` filled with `color`.
    pub open spec fn spec_square_at(self, w: int, h: int, color: Color) -> Square {
        Square {
            x: self.spec_pixel_to_screen_x(w) as i64,
            y: self.spec_pixel_to_screen_y(h) as i64,
            size: (self.square_size * SUBPIXEL) as i64,
            color,
        }
    }

    fn rounded_center(pc: u64) -> (r: u64)
        requires
            pc <= PAN_LIMIT,
        ensures
            r == Self::spec_rounded_center(pc),
            r <= PAN_LIMIT,
    {
        proof {
            vstd::arithmetic::div_mod::lemma_div_is_ordered(
                (pc + SUBPIXEL / 2) as int, (PAN_LIMIT + SUBPIXEL / 2) as int, SUBPIXEL as int);
        }
        (pc + SUBPIXEL / 2) / SUBPIXEL
    }

    /// Transforms a screen position to the (possibly off-canvas, possibly
    /// negative) pixel coordinates under it.
    pub fn screen_to_pixel(&self, pos: ScreenPos) -> (r: (i64, i64))
        requires
            self.wf(),
            -SCREEN_LIMIT <= pos.x <= SCREEN_LIMIT,
            -SCREEN_LIMIT <= pos.y <= SCREEN_LIMIT,
        ensures
            r.0 == self.spec_screen_to_pixel_x(pos.x as int),
            r.1 == self.spec_screen_to_pixel_y(pos.y as int),
            -PIXEL_BOUND <= r.0 <= PIXEL_BOUND,
            -PIXEL_BOUND <= r.1 <= PIXEL_BOUND,
    {
        let step: i64 = (self.square_size * SUBPIXEL) as i64;
        let qx: i64 = floor_div(pos.x - self.screen_center.x, step);
        let qy: i64 = floor_div(pos.y - self.screen_center.y, step);
        proof {
            lemma_div_bound(
                (pos.x - self.screen_center.x) as int, step as int, 2 * SCREEN_LIMIT as int);
            lemma_div_bound(
                (pos.y - self.screen_center.y) as int, step as int, 2 * SCREEN_LIMIT as int);
            vstd::arithmetic::div_mod::lemma_div_is_ordered_by_denominator(
                2 * SCREEN_LIMIT as int, 2000, step as int);
        }
        let rx: i64 = qx + Self::rounded_center(self.pixel_center_x) as i64;
        let ry: i64 = qy + Self::rounded_center(self.pixel_center_y) as i64;
        (rx, ry)
    }

    /// Transforms pixel coordinates to the screen position (sub-units) of the
    /// pixel's top-left corner.
    pub fn pixel_to_screen(&self, w: i64, h: i64) -> (r: ScreenPos)
        requires
            self.wf(),
            -PIXEL_LIMIT <= w <= PIXEL_LIMIT,
            -PIXEL_LIMIT <= h <= PIXEL_LIMIT,
        ensures
            r.x == self.spec_pixel_to_screen_x(w as int),
            r.y == self.spec_pixel_to_screen_y(h as int),
    {
        let step: i64 = (self.square_size * SUBPIXEL) as i64;
        let rcx: i64 = Self::rounded_center(self.pixel_center_x) as i64;
        let rcy: i64 = Self::rounded_center(self.pixel_center_y) as i64;
        proof {
            let st = step as int;
            let dx = w - rcx as int;
            let dy = h - rcy as int;
            assert(-0x60_0000_0000 * 100_000 <= dx * st <= 0x60_0000_0000 * 100_000)
                by (nonlinear_arith)
                requires
                    -0x60_0000_0000 <= dx <= 0x60_0000_0000,
                    0 < st <= 100_000,
            ;
            assert(-0x60_0000_0000 * 100_000 <= dy * st <= 0x60_0000_0000 * 100_000)
                by (nonlinear_arith)
                requires
                    -0x60_0000_0000 <= dy <= 0x60_0000_0000,
                    0 < st <= 100_000,
            ;
        }
        ScreenPos {
            x: (w - rcx) * step + self.screen_center.x,
            y: (h - rcy) * step + self.screen_center.y,
        }
    }

    /// The square size after zooming by the factor `num / den`: the scaled
    /// size clamped to `[MIN_SQUARE_SIZE, MAX_SQUARE_SIZE]` and rounded up to
    /// the nearest whole pixel.
    pub open spec fn spec_zoomed_size(self, num: u64, den: u64) -> int {
        let scaled = self.square_size * num;
        if scaled <= MIN_SQUARE_SIZE * den {
            MIN_SQUARE_SIZE as int
        } else if scaled >= MAX_SQUARE_SIZE * den {
            MAX_SQUARE_SIZE as int
        } else {
            (scaled + den - 1) / den as int
        }
    }

    /// Applies a zoom by the rational factor `num / den`. The square size
    /// never leaves `[MIN_SQUARE_SIZE, MAX_SQUARE_SIZE]`, however small or
    /// large the factor.
    pub fn zoom(&mut self, num: u64, den: u64)
        requires
            old(self).wf(),
            1 <= den <= 1_000_000,
            num <= 1_000_000,
        ensures
            final(self).square_size == old(self).spec_zoomed_size(num, den),
            MIN_SQUARE_SIZE <= final(self).square_size <= MAX_SQUARE_SIZE,
            final(self).pixel_center_x == old(self).pixel_center_x,
            final(self).pixel_center_y == old(self).pixel_center_y,
            final(self).screen_center == old(self).screen_center,
            final(self).wf(),
    {
        proof {
            vstd::arithmetic::mul::lemma_mul_upper_bound(
                self.square_size as int, MAX_SQUARE_SIZE as int, num as int, 1_000_000);
        }
        let scaled: u64 = self.square_size * num;
        if scaled <= MIN_SQUARE_SIZE * den {
            self.square_size = MIN_SQUARE_SIZE;
        } else if scaled >= MAX_SQUARE_SIZE * den {
            self.square_size = MAX_SQUARE_SIZE;
        } else {
            let q: u64 = (scaled + den - 1) / den;
            proof {
                let s = scaled as int;
                let d = den as int;
                vstd::arithmetic::div_mod::lemma_fundamental_div_mod_converse(
                    3 * d, d, 3, 0);
                vstd::arithmetic::div_mod::lemma_div_is_ordered(3 * d, s + d - 1, d);
                if d >= 2 {
                    vstd::arithmetic::div_mod::lemma_fundamental_div_mod_converse(
                        101 * d - 2, d, 100, d - 2);
                    vstd::arithmetic::div_mod::lemma_div_is_ordered(s + d - 1, 101 * d - 2, d);
                }
            }
            self.square_size = q;
        }
    }

    /// The pan anchor coordinate after scrolling by `d` sub-units: moved
    /// against the drag by `SCROLL_SENSITIVITY / square_size`, then clamped to
    /// `[0, max]`.
    pub open spec fn spec_panned(pc: u64, d: int, size: u64, max: u64) -> int {
        let moved = pc - (d * SCROLL_SENSITIVITY_NUM) / (SCROLL_SENSITIVITY_DEN * size) as int;
        if moved < 0 {
            0
        } else if moved > max {
            max as int
        } else {
            moved
        }
    }

    /// Pans the camera by the drag delta `(dx, dy)` (sub-units), keeping the
    /// pan anchor inside `[0, max_x] x [0, max_y]`.
    pub fn pan(&mut self, dx: i64, dy: i64, max_x: u64, max_y: u64)
        requires
            old(self).wf(),
            -SCREEN_LIMIT <= dx <= SCREEN_LIMIT,
            -SCREEN_LIMIT <= dy <= SCREEN_LIMIT,
            max_x <= PAN_LIMIT,
            max_y <= PAN_LIMIT,
        ensures
            final(self).pixel_center_x
                == Self::spec_panned(old(self).pixel_center_x, dx as int,
                    old(self).square_size, max_x),
            final(self).pixel_center_y
                == Self::spec_panned(old(self).pixel_center_y, dy as int,
                    old(self).square_size, max_y),
            final(self).pixel_center_x <= max_x,
            final(self).pixel_center_y <= max_y,
            final(self).square_size == old(self).square_size,
            final(self).screen_center == old(self).screen_center,
            final(self).wf(),
    {
        let den: i64 = SCROLL_SENSITIVITY_DEN * self.square_size as i64;
        let sx: i64 = floor_div(dx * SCROLL_SENSITIVITY_NUM, den);
        let sy: i64 = floor_div(dy * SCROLL_SENSITIVITY_NUM, den);
        proof {
            lemma_div_bound((dx * SCROLL_SENSITIVITY_NUM) as int, den as int,
                4 * SCREEN_LIMIT as int);
            lemma_div_bound((dy * SCROLL_SENSITIVITY_NUM) as int, den as int,
                4 * SCREEN_LIMIT as int);
        }
        let vx: i64 = self.pixel_center_x as i64 - sx;
        let vy: i64 = self.pixel_center_y as i64 - sy;
        self.pixel_center_x = if vx < 0 {
            0
        } else if vx > max_x as i64 {
            max_x
        } else {
            vx as u64
        };
        self.pixel_center_y = if vy < 0 {
            0
        } else if vy > max_y as i64 {
            max_y
        } else {
            vy as u64
        };
    }

    /// The renderable square of side `square_size` at the screen position of
    /// pixel `(w, h)`, filled with `color` and drawn without a border.
    pub fn square_from_pixel(&self, w: i64, h: i64, color: Color) -> (s: Square)
        requires
            self.wf(),
            -PIXEL_LIMIT <= w <= PIXEL_LIMIT,
            -PIXEL_LIMIT <= h <= PIXEL_LIMIT,
        ensures
            s == self.spec_square_at(w as int, h as int, color),
    {
        let pos = self.pixel_to_screen(w, h);
        Square { x: pos.x, y: pos.y, size: (self.square_size * SUBPIXEL) as i64, color }
    }
}

} // verus!
