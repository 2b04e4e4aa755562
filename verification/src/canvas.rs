use vstd::prelude::*;
use vstd::pervasive::VecAdditionalExecFns;
use crate::camera::{Camera, ScreenPos, ScreenRect, Square, PIXEL_BOUND, SCREEN_LIMIT,
    SUBPIXEL};
use crate::change_manager::CanvasState;
use crate::color::Color;

verus! {

/// Side length of the grid a canvas is created with when none is given.
pub const DEFAULT_SIZE: usize = 32;

/// Largest accepted grid side length.
pub const MAX_DIM: usize = 2048;

/// Largest accepted number of layers.
pub const MAX_LAYERS: usize = 256;

/// Checkerboard cell size (in grid pixels) of the synthetic alpha layer.
pub const ALPHA_RATIO: usize = 8;

/// A recoverable failure of an editing operation.
#[derive(Clone, Copy, PartialEq, Eq, Structural, Debug)]
pub enum CanvasError {
    /// A screen position mapped to negative pixel coordinates.
    OffCanvas,
    /// Pixel coordinates lie outside the grid.
    OutOfBounds,
    /// A flood fill was asked to replace a color with itself.
    SameColor,
}

/// The layered pixel grid with its renderable-square cache.
///
/// Pixels are stored as one flat sequence, layer-major: the color of `(x, y)`
/// on layer `l` sits at `x + y*width + width*height*l`. The squares cache has
/// one extra checkerboard "alpha" layer prepended, so entry
/// `x + y*width + width*height*(l+1)` renders pixel `(x, y, l)` and entry
/// `x + y*width` is the checkerboard cell under column `x`, row `y`.
pub struct Canvas {
    pub width: usize,
    pub height: usize,
    pub layers: usize,
    pub active_layer: usize,
    pub layer_names: Vec<u64>,
    pub layer_name_cnt: u64,
    pub layers_to_show: Vec<bool>,
    pub alpha_ratio: usize,
    pub pixels: Vec<Color>,
    pub squares: Vec<Square>,
    pub camera: Camera,
    pub stroke_color: Color,
}

impl Canvas {
    /// Number of cells in one layer.
    pub open spec fn layer_size(self) -> int {
        self.width * self.height
    }

    /// Flat index of pixel `(x, y)` on layer `l`.
    pub open spec fn pix_index(self, x: int, y: int, l: int) -> int {
        x + y * self.width + self.layer_size() * l
    }

    /// Flat index of the cache square rendering pixel `(x, y)` on layer `l`.
    pub open spec fn sq_index(self, x: int, y: int, l: int) -> int {
        x + y * self.width + self.layer_size() * (l + 1)
    }

    /// Flat index of the checkerboard square under `(x, y)`.
    pub open spec fn alpha_index(self, x: int, y: int) -> int {
        x + y * self.width
    }

    /// Whether `(x, y, l)` addresses a cell of the grid.
    pub open spec fn valid_pixel(self, x: int, y: int, l: int) -> bool {
        &&& 0 <= x < self.width
        &&& 0 <= y < self.height
        &&& 0 <= l < self.layers
    }

    /// The color of pixel `(x, y)` on layer `l`.
    pub open spec fn pixel_at(self, x: int, y: int, l: int) -> Color {
        self.pixels@[self.pix_index(x, y, l)]
    }

    /// The cache square for pixel `(x, y)` on layer `l`.
    pub open spec fn square_at(self, x: int, y: int, l: int) -> Square {
        self.squares@[self.sq_index(x, y, l)]
    }

    pub open spec fn spec_width(self) -> int {
        self.width as int
    }

    pub open spec fn spec_height(self) -> int {
        self.height as int
    }

    pub open spec fn spec_layers(self) -> int {
        self.layers as int
    }

    pub open spec fn spec_active_layer(self) -> int {
        self.active_layer as int
    }

    pub open spec fn spec_layer_names(self) -> Seq<u64> {
        self.layer_names@
    }

    pub open spec fn spec_layer_name_cnt(self) -> u64 {
        self.layer_name_cnt
    }

    pub open spec fn spec_layers_to_show(self) -> Seq<bool> {
        self.layers_to_show@
    }

    pub open spec fn spec_pixels(self) -> Seq<Color> {
        self.pixels@
    }

    pub open spec fn spec_squares(self) -> Seq<Square> {
        self.squares@
    }

    pub open spec fn spec_camera(self) -> Camera {
        self.camera
    }

    pub open spec fn spec_stroke(self) -> Color {
        self.stroke_color
    }

    /// Structural invariant: every public operation requires and preserves it.
    pub open spec fn wf(self) -> bool {
        &&& 1 <= self.width <= MAX_DIM
        &&& 1 <= self.height <= MAX_DIM
        &&& 1 <= self.layers <= MAX_LAYERS
        &&& self.active_layer < self.layers
        &&& self.layer_names@.len() == self.layers
        &&& self.layers_to_show@.len() == self.layers
        &&& self.pixels@.len() == self.layer_size() * self.layers
        &&& self.squares@.len() == self.layer_size() * (self.layers + 1)
        &&& self.alpha_ratio == ALPHA_RATIO
        &&& self.camera.wf()
        &&& self.camera.pixel_center_x <= self.width * SUBPIXEL
        &&& self.camera.pixel_center_y <= self.height * SUBPIXEL
    }

    /// The two observations the editing operations frame most often: the grid
    /// dimensions never change after construction.
    pub open spec fn same_dims(self, other: Canvas) -> bool {
        &&& self.width == other.width
        &&& self.height == other.height
    }

    /// Recovering `(x, y, l)` from a flat index: the layer-major indexing is
    /// injective on valid coordinates.
    proof fn lemma_index_inverse(w: int, h: int, x: int, y: int, l: int)
        requires
            1 <= w,
            1 <= h,
            0 <= x < w,
            0 <= y < h,
            0 <= l,
        ensures
            (x + y * w + w * h * l) % w == x,
            ((x + y * w + w * h * l) / w) % h == y,
            ((x + y * w + w * h * l) / w) / h == l,
            x + y * w + w * h * l < w * h * (l + 1),
            0 <= x + y * w + w * h * l,
    {
        let idx = x + y * w + w * h * l;
        assert(idx == (y + h * l) * w + x && 0 <= y + h * l
            && w * h * (l + 1) == (h + h * l) * w) by (nonlinear_arith)
            requires
                idx == x + y * w + w * h * l,
                1 <= w,
                1 <= h,
                0 <= y,
                0 <= l,
        ;
        vstd::arithmetic::div_mod::lemma_fundamental_div_mod_converse(
            idx, w, y + h * l, x);
        vstd::arithmetic::div_mod::lemma_fundamental_div_mod_converse(
            y + h * l, h, l, y);
        assert(y + h * l < h + h * l && (y + h * l) * w + x < (h + h * l) * w)
            by (nonlinear_arith)
            requires
                1 <= w,
                0 <= x < w,
                y < h,
                0 <= y + h * l,
        ;
        assert(0 <= (y + h * l) * w) by (nonlinear_arith)
            requires
                0 <= y + h * l,
                1 <= w,
        ;
    }

    /// Distinct valid coordinates occupy distinct flat indices, and every
    /// valid flat index is in bounds.
    pub proof fn lemma_pix_index(self, x: int, y: int, l: int)
        requires
            1 <= self.width,
            1 <= self.height,
            self.valid_pixel(x, y, l),
        ensures
            0 <= self.pix_index(x, y, l) < self.layer_size() * self.layers,
            self.pix_index(x, y, l) < self.layer_size() * (l + 1),
            self.layer_size() * l <= self.pix_index(x, y, l),
            forall|x2: int, y2: int, l2: int|
                self.valid_pixel(x2, y2, l2) && (x2 != x || y2 != y || l2 != l)
                    ==> self.pix_index(x2, y2, l2) != self.pix_index(x, y, l),
    {
        let w = self.width as int;
        let h = self.height as int;
        Self::lemma_index_inverse(w, h, x, y, l);
        assert(self.layer_size() * (l + 1) <= self.layer_size() * self.layers)
            by (nonlinear_arith)
            requires
                l + 1 <= self.layers as int,
                0 <= self.layer_size(),
        ;
        assert(self.layer_size() * l <= x + y * w + w * h * l) by (nonlinear_arith)
            requires
                0 <= x,
                0 <= y,
                0 <= l,
                1 <= w,
                1 <= h,
                self.layer_size() == w * h,
        ;
        assert forall|x2: int, y2: int, l2: int|
            self.valid_pixel(x2, y2, l2) && (x2 != x || y2 != y || l2 != l)
                implies self.pix_index(x2, y2, l2) != self.pix_index(x, y, l) by {
            Self::lemma_index_inverse(w, h, x2, y2, l2);
        }
    }

    /// The cache analogue of `lemma_pix_index`, including that cache squares
    /// never collide with the checkerboard block at the front.
    pub proof fn lemma_sq_index(self, x: int, y: int, l: int)
        requires
            1 <= self.width,
            1 <= self.height,
            self.valid_pixel(x, y, l),
        ensures
            0 <= self.sq_index(x, y, l) < self.layer_size() * (self.layers + 1),
            self.layer_size() <= self.sq_index(x, y, l),
            forall|x2: int, y2: int, l2: int|
                self.valid_pixel(x2, y2, l2) && (x2 != x || y2 != y || l2 != l)
                    ==> self.sq_index(x2, y2, l2) != self.sq_index(x, y, l),
            forall|x2: int, y2: int|
                0 <= x2 < self.width && 0 <= y2 < self.height
                    ==> self.alpha_index(x2, y2) != self.sq_index(x, y, l),
    {
        let w = self.width as int;
        let h = self.height as int;
        Self::lemma_index_inverse(w, h, x, y, l + 1);
        assert(self.layer_size() * (l + 2) <= self.layer_size() * (self.layers + 1)
            && self.layer_size() * 1 <= self.layer_size() * (l + 1)) by (nonlinear_arith)
            requires
                l + 2 <= self.layers + 1,
                1 <= l + 1,
                0 <= self.layer_size(),
        ;
        assert(self.layer_size() * (l + 1) <= x + y * w + w * h * (l + 1))
            by (nonlinear_arith)
            requires
                0 <= x,
                0 <= y,
                0 <= l,
                1 <= w,
                1 <= h,
                self.layer_size() == w * h,
        ;
        assert forall|x2: int, y2: int, l2: int|
            self.valid_pixel(x2, y2, l2) && (x2 != x || y2 != y || l2 != l)
                implies self.sq_index(x2, y2, l2) != self.sq_index(x, y, l) by {
            Self::lemma_index_inverse(w, h, x2, y2, l2 + 1);
        }
        assert forall|x2: int, y2: int|
            0 <= x2 < self.width && 0 <= y2 < self.height
                implies self.alpha_index(x2, y2) != self.sq_index(x, y, l) by {
            assert(x2 + y2 * w < w * h * 1 <= w * h * (l + 1)) by (nonlinear_arith)
                requires
                    0 <= x2 < w,
                    0 <= y2 < h,
                    0 <= l,
                    1 <= w,
                    1 <= h,
            ;
            assert(0 <= x + y * w) by (nonlinear_arith)
                requires 0 <= x, 0 <= y, 1 <= w,
            ;
        }
    }

    /// Every intermediate term of the flat-index computation stays far below
    /// `u32::MAX`, so the executable index arithmetic cannot overflow.
    pub proof fn lemma_offset_bounds(self, x: int, y: int, l: int)
        requires
            1 <= self.width <= MAX_DIM,
            1 <= self.height <= MAX_DIM,
            self.layers <= MAX_LAYERS,
            self.valid_pixel(x, y, l),
        ensures
            0 <= y * self.width <= self.layer_size() - self.width,
            0 <= self.layer_size() * l <= self.layer_size() * (self.layers - 1),
            0 <= self.layer_size() * (l + 1) <= self.layer_size() * self.layers,
            self.layer_size() <= 0x40_0000,
            self.layer_size() * self.layers <= 0x4000_0000,
            self.layer_size() * (self.layers + 1) <= 0x4100_0000,
    {
        let w = self.width as int;
        let h = self.height as int;
        let ls = self.layer_size();
        let n = self.layers as int;
        assert(0 <= y * w && y * w <= (h - 1) * w && (h - 1) * w == w * h - w
            && 0 <= ls * l && ls * l <= ls * (n - 1) && ls * (n - 1) == ls * n - ls
            && ls * (l + 1) <= ls * n
            && 0 <= ls * (l + 1)
            && w * h <= 2048 * 2048
            && ls * n <= 0x40_0000 * 256
            && ls * (n + 1) == ls * n + ls) by (nonlinear_arith)
            requires
                1 <= w <= 2048,
                1 <= h <= 2048,
                1 <= n <= 256,
                0 <= y < h,
                0 <= l < n,
                ls == w * h,
        ;
    }

    /// Flat pixel index of valid coordinates, as executable arithmetic.
    pub(crate) fn pix_offset(&self, x: usize, y: usize, layer_idx: usize) -> (i: usize)
        requires
            self.wf(),
            self.valid_pixel(x as int, y as int, layer_idx as int),
        ensures
            i == self.pix_index(x as int, y as int, layer_idx as int),
            i < self.spec_pixels().len(),
    {
        proof {
            self.lemma_offset_bounds(x as int, y as int, layer_idx as int);
            self.lemma_pix_index(x as int, y as int, layer_idx as int);
        }
        x + y * self.width + (self.width * self.height) * layer_idx
    }

    /// Flat cache index of the square for valid coordinates.
    pub(crate) fn sq_offset(&self, x: usize, y: usize, layer_idx: usize) -> (i: usize)
        requires
            self.wf(),
            self.valid_pixel(x as int, y as int, layer_idx as int),
        ensures
            i == self.sq_index(x as int, y as int, layer_idx as int),
            i < self.spec_squares().len(),
    {
        proof {
            self.lemma_offset_bounds(x as int, y as int, layer_idx as int);
            self.lemma_sq_index(x as int, y as int, layer_idx as int);
        }
        x + y * self.width + (self.width * self.height) * (layer_idx + 1)
    }

    /// A fresh canvas: one visible transparent layer named by counter value
    /// `0`, the camera zoomed to ten screen pixels per grid pixel and panned
    /// to the grid's center, and a placeholder squares cache that the first
    /// rebuild fills in.
    pub fn new(width: usize, height: usize) -> (c: Canvas)
        requires
            1 <= width <= MAX_DIM,
            1 <= height <= MAX_DIM,
        ensures
            c.wf(),
            c.spec_width() == width,
            c.spec_height() == height,
            c.spec_layers() == 1,
            c.spec_active_layer() == 0,
            c.spec_layer_names() == seq![0u64],
            c.spec_layer_name_cnt() == 1,
            c.spec_layers_to_show() == seq![true],
            c.spec_pixels() == Seq::new((width * height) as nat,
                |i: int| Color::spec_transparent()),
            c.spec_squares() == Seq::new((width * height * 2) as nat,
                |i: int| Square::spec_placeholder()),
            c.spec_camera() == (Camera {
                square_size: 10,
                pixel_center_x: ((width as int / 2) * SUBPIXEL) as u64,
                pixel_center_y: ((height as int / 2) * SUBPIXEL) as u64,
                screen_center: ScreenPos { x: 0, y: 0 },
            }),
            c.spec_stroke() == Color::spec_transparent(),
    {
        proof {
            assert(width * height <= MAX_DIM * MAX_DIM
                && width * height * 2 <= MAX_DIM * MAX_DIM * 2
                && width * height * 1 == width * height) by (nonlinear_arith)
                requires
                    1 <= width <= MAX_DIM,
                    1 <= height <= MAX_DIM,
            ;
            vstd::arithmetic::div_mod::lemma_div_is_ordered(
                width as int, MAX_DIM as int, 2);
            vstd::arithmetic::div_mod::lemma_div_is_ordered(
                height as int, MAX_DIM as int, 2);
            vstd::arithmetic::div_mod::lemma_div_pos_is_pos(width as int, 2);
            vstd::arithmetic::div_mod::lemma_div_pos_is_pos(height as int, 2);
        }
        let mut layer_names: Vec<u64> = Vec::new();
        layer_names.push(0);
        let mut layers_to_show: Vec<bool> = Vec::new();
        layers_to_show.push(true);
        let pixels: Vec<Color> = vec![Color::transparent(); width * height];
        let squares: Vec<Square> = vec![Square::placeholder(); width * height * 2];
        proof {
            assert(pixels@ =~= Seq::new((width * height) as nat,
                |i: int| Color::spec_transparent()));
            assert(squares@ =~= Seq::new((width * height * 2) as nat,
                |i: int| Square::spec_placeholder()));
            assert(layer_names@ =~= seq![0u64]);
            assert(layers_to_show@ =~= seq![true]);
        }
        Canvas {
            width,
            height,
            layers: 1,
            active_layer: 0,
            layer_names,
            layer_name_cnt: 1,
            layers_to_show,
            alpha_ratio: ALPHA_RATIO,
            pixels,
            squares,
            camera: Camera {
                square_size: 10,
                pixel_center_x: (width / 2) as u64 * SUBPIXEL,
                pixel_center_y: (height / 2) as u64 * SUBPIXEL,
                screen_center: ScreenPos { x: 0, y: 0 },
            },
            stroke_color: Color::transparent(),
        }
    }

    pub fn get_num_layers(&self) -> (n: usize)
        ensures
            n == self.spec_layers(),
    {
        self.layers
    }

    pub fn get_width(&self) -> (w: usize)
        ensures
            w == self.spec_width(),
    {
        self.width
    }

    pub fn get_height(&self) -> (h: usize)
        ensures
            h == self.spec_height(),
    {
        self.height
    }

    pub fn get_active_layer(&self) -> (l: usize)
        ensures
            l == self.spec_active_layer(),
    {
        self.active_layer
    }

    /// Selects the layer that drawing operations target.
    pub fn set_active_layer(&mut self, layer_idx: usize)
        requires
            old(self).wf(),
            layer_idx < old(self).spec_layers(),
        ensures
            *final(self) == (Canvas { active_layer: layer_idx, ..*old(self) }),
            final(self).wf(),
    {
        self.active_layer = layer_idx;
    }

    /// The counter value that names layer `layer_idx`.
    pub fn get_layer_name(&self, layer_idx: usize) -> (name: u64)
        requires
            self.wf(),
            layer_idx < self.spec_layers(),
        ensures
            name == self.spec_layer_names()[layer_idx as int],
    {
        self.layer_names[layer_idx]
    }

    /// The per-layer visibility flags, index-aligned with the layers.
    pub fn get_layers_to_show(&self) -> (flags: Vec<bool>)
        ensures
            flags@ == self.spec_layers_to_show(),
    {
        self.layers_to_show.clone()
    }

    /// Flips whether layer `layer_idx` is drawn by `get_squares_unhidden`.
    pub fn toggle_layer_visibility(&mut self, layer_idx: usize)
        requires
            old(self).wf(),
            layer_idx < old(self).spec_layers(),
        ensures
            final(self).spec_layers_to_show() == old(self).spec_layers_to_show()
                .update(layer_idx as int, !old(self).spec_layers_to_show()[layer_idx as int]),
            *final(self) == (Canvas {
                layers_to_show: final(self).layers_to_show, ..*old(self) }),
            final(self).wf(),
    {
        let flag = self.layers_to_show[layer_idx];
        self.layers_to_show.set(layer_idx, !flag);
    }

    pub fn get_stroke(&self) -> (c: Color)
        ensures
            c == self.spec_stroke(),
    {
        self.stroke_color
    }

    /// Replaces the active stroke color.
    pub fn change_stroke(&mut self, color: Color)
        ensures
            *final(self) == (Canvas { stroke_color: color, ..*old(self) }),
    {
        self.stroke_color = color;
    }

    /// Replaces the active stroke color, keeping the rest of the stroke.
    pub fn new_stroke_color(&mut self, color: Color)
        ensures
            *final(self) == (Canvas { stroke_color: color, ..*old(self) }),
    {
        self.stroke_color = color;
    }

    pub fn get_screen_center(&self) -> (pos: ScreenPos)
        ensures
            pos == self.spec_camera().screen_center,
    {
        self.camera.screen_center
    }

    /// Moves the viewport center; callers rebuild the cache afterwards.
    pub fn set_screen_center(&mut self, pos: ScreenPos)
        requires
            old(self).wf(),
            -SCREEN_LIMIT <= pos.x <= SCREEN_LIMIT,
            -SCREEN_LIMIT <= pos.y <= SCREEN_LIMIT,
        ensures
            final(self).spec_camera() == (Camera {
                screen_center: pos, ..old(self).spec_camera() }),
            *final(self) == (Canvas { camera: final(self).camera, ..*old(self) }),
            final(self).wf(),
    {
        self.camera.screen_center = pos;
    }

    /// Checkerboard color of the synthetic alpha layer under `(x, y)`.
    pub open spec fn spec_alpha_color(x: int, y: int) -> Color {
        if (y / ALPHA_RATIO as int) % 2 == (x / ALPHA_RATIO as int) % 2 {
            Color::spec_dark_gray()
        } else {
            Color::spec_light_gray()
        }
    }

    /// What cache entry `i` holds after a full rebuild: the first
    /// `layer_size()` entries render the checkerboard, the rest render their
    /// pixel, all placed by the current camera.
    pub open spec fn spec_rebuilt_entry(self, i: int) -> Square {
        let ls = self.layer_size();
        let l = i / ls - 1;
        let y = (i % ls) / self.width as int;
        let x = (i % ls) % self.width as int;
        if l < 0 {
            self.camera.spec_square_at(x, y, Self::spec_alpha_color(x, y))
        } else {
            self.camera.spec_square_at(x, y, self.pixel_at(x, y, l))
        }
    }

    /// The whole cache after a full rebuild.
    pub open spec fn spec_rebuilt_squares(self) -> Seq<Square> {
        Seq::new((self.layer_size() * (self.layers + 1)) as nat,
            |i: int| self.spec_rebuilt_entry(i))
    }

    /// The cache agrees with the grid, the camera and the geometry.
    pub open spec fn cache_rebuilt(self) -> bool {
        self.spec_squares() == self.spec_rebuilt_squares()
    }

    /// Decomposing a flat cache index into its coordinates.
    proof fn lemma_entry_coords(w: int, h: int, n: int, i: int)
        requires
            1 <= w,
            1 <= h,
            0 <= n,
            0 <= i < w * h * (n + 1),
        ensures
            0 <= i / (w * h) <= n,
            0 <= (i % (w * h)) / w < h,
            0 <= (i % (w * h)) % w < w,
            i == ((i % (w * h)) % w) + ((i % (w * h)) / w) * w + (w * h) * (i / (w * h)),
    {
        let ls = w * h;
        assert(1 <= ls && ls * (n + 1) == (n + 1) * ls) by (nonlinear_arith)
            requires 1 <= w, 1 <= h, ls == w * h,
        ;
        vstd::arithmetic::div_mod::lemma_fundamental_div_mod(i, ls);
        vstd::arithmetic::div_mod::lemma_remainder_lower(i, ls);
        vstd::arithmetic::div_mod::lemma_remainder_upper(i, ls);
        let q = i / ls;
        let rem = i % ls;
        vstd::arithmetic::div_mod::lemma_fundamental_div_mod(rem, w);
        let y = rem / w;
        let x = rem % w;
        assert(0 <= q) by {
            vstd::arithmetic::div_mod::lemma_div_pos_is_pos(i, ls);
        }
        assert(q <= n) by {
            if q > n {
                vstd::arithmetic::mul::lemma_mul_inequality(n + 1, q, ls);
                assert((n + 1) * ls <= q * ls && q * ls == ls * q) by (nonlinear_arith)
                    requires n + 1 <= q, 1 <= ls,
                ;
            }
        }
        assert(0 <= y) by {
            vstd::arithmetic::div_mod::lemma_div_pos_is_pos(rem, w);
        }
        assert(y < h) by {
            if y >= h {
                assert(w * y >= w * h) by (nonlinear_arith)
                    requires y >= h, 1 <= w,
                ;
            }
        }
        assert(i == x + y * w + ls * q) by (nonlinear_arith)
            requires
                i == ls * q + rem,
                rem == w * y + x,
        ;
    }

    /// Recomputes every entry of the squares cache from the pixel grid and the
    /// camera. Must run after zoom, pan, viewport moves, layer changes or a
    /// full state load.
    pub fn update_squares(&mut self)
        requires
            old(self).wf(),
        ensures
            *final(self) == (Canvas { squares: final(self).squares, ..*old(self) }),
            final(self).spec_squares() == old(self).spec_rebuilt_squares(),
            final(self).cache_rebuilt(),
            final(self).wf(),
    {
        proof {
            self.lemma_offset_bounds(0, 0, 0);
        }
        let ls = self.width * self.height;
        let total = self.squares.len();
        let mut i: usize = 0;
        while i < total
            invariant
                self.wf(),
                *self == (Canvas { squares: self.squares, ..*old(self) }),
                ls == self.layer_size(),
                total == self.spec_squares().len(),
                total == self.layer_size() * (self.layers + 1),
                i <= total,
                forall|j: int| 0 <= j < i
                    ==> self.spec_squares()[j] == old(self).spec_rebuilt_entry(j),
            decreases total - i,
        {
            proof {
                Self::lemma_entry_coords(
                    self.width as int, self.height as int, self.layers as int, i as int);
            }
            let lp = i / ls;
            let rem = i % ls;
            let y = rem / self.width;
            let x = rem % self.width;
            let sq = if lp == 0 {
                let color = if (y / self.alpha_ratio) % 2 == (x / self.alpha_ratio) % 2 {
                    Color::dark_gray()
                } else {
                    Color::light_gray()
                };
                self.camera.square_from_pixel(x as i64, y as i64, color)
            } else {
                let pi = self.pix_offset(x, y, lp - 1);
                let color = self.pixels[pi];
                self.camera.square_from_pixel(x as i64, y as i64, color)
            };
            self.squares.set(i, sq);
            i += 1;
        }
        proof {
            assert(self.spec_squares() =~= old(self).spec_rebuilt_squares());
            assert(self.spec_rebuilt_squares() =~= old(self).spec_rebuilt_squares());
        }
    }

    /// Applies a zoom by the rational factor `num / den` and rebuilds the
    /// cache. The square size never leaves its clamp range.
    pub fn zoom(&mut self, num: u64, den: u64)
        requires
            old(self).wf(),
            1 <= den <= 1_000_000,
            num <= 1_000_000,
        ensures
            final(self).spec_camera() == (Camera {
                square_size: old(self).spec_camera().spec_zoomed_size(num, den) as u64,
                ..old(self).spec_camera()
            }),
            *final(self) == (Canvas {
                camera: final(self).camera,
                squares: final(self).squares,
                ..*old(self)
            }),
            final(self).cache_rebuilt(),
            final(self).wf(),
    {
        self.camera.zoom(num, den);
        self.update_squares();
    }

    /// Pans the view by the drag delta (sub-units) and rebuilds the cache; the
    /// pan anchor stays inside the grid whatever the zoom level.
    pub fn scroll(&mut self, dx: i64, dy: i64)
        requires
            old(self).wf(),
            -SCREEN_LIMIT <= dx <= SCREEN_LIMIT,
            -SCREEN_LIMIT <= dy <= SCREEN_LIMIT,
        ensures
            final(self).spec_camera() == (Camera {
                pixel_center_x: Camera::spec_panned(old(self).spec_camera().pixel_center_x,
                    dx as int, old(self).spec_camera().square_size,
                    (old(self).spec_width() * SUBPIXEL) as u64) as u64,
                pixel_center_y: Camera::spec_panned(old(self).spec_camera().pixel_center_y,
                    dy as int, old(self).spec_camera().square_size,
                    (old(self).spec_height() * SUBPIXEL) as u64) as u64,
                ..old(self).spec_camera()
            }),
            *final(self) == (Canvas {
                camera: final(self).camera,
                squares: final(self).squares,
                ..*old(self)
            }),
            final(self).cache_rebuilt(),
            final(self).wf(),
    {
        let max_x: u64 = self.width as u64 * SUBPIXEL;
        let max_y: u64 = self.height as u64 * SUBPIXEL;
        self.camera.pan(dx, dy, max_x, max_y);
        self.update_squares();
    }

    /// Writes `color` to `(x, y)` on the active layer and recolors the single
    /// matching cache entry, leaving the entry's geometry alone. Fails with
    /// `OutOfBounds`, changing nothing, when `(x, y)` is off the grid.
    pub fn set_pixel_from_pixel_coords(&mut self, pixel_coords: (usize, usize), color: Color)
        -> (r: Result<(), CanvasError>)
        requires
            old(self).wf(),
        ensures
            final(self).wf(),
            ({
                let x = pixel_coords.0 as int;
                let y = pixel_coords.1 as int;
                let l = old(self).spec_active_layer();
                if old(self).valid_pixel(x, y, l) {
                    &&& r == Ok::<(), CanvasError>(())
                    &&& final(self).spec_pixels() == old(self).spec_pixels()
                        .update(old(self).pix_index(x, y, l), color)
                    &&& final(self).spec_squares() == old(self).spec_squares()
                        .update(old(self).sq_index(x, y, l),
                            old(self).square_at(x, y, l).spec_recolored(color))
                    &&& final(self).pixel_at(x, y, l) == color
                    &&& *final(self) == (Canvas {
                        pixels: final(self).pixels,
                        squares: final(self).squares,
                        ..*old(self)
                    })
                } else {
                    &&& r == Err::<(), CanvasError>(CanvasError::OutOfBounds)
                    &&& *final(self) == *old(self)
                }
            }),
    {
        let (x, y) = pixel_coords;
        if x < self.width && y < self.height && self.active_layer < self.layers {
            let pi = self.pix_offset(x, y, self.active_layer);
            self.pixels.set(pi, color);
            let si = self.sq_offset(x, y, self.active_layer);
            let old_sq = self.squares[si];
            self.squares.set(si, Square { color, ..old_sq });
            proof {
                self.lemma_pix_index(
                    x as int, y as int, self.active_layer as int);
            }
            Ok(())
        } else {
            Err(CanvasError::OutOfBounds)
        }
    }

    /// Writes `color` to the pixel under the screen position `pos` on the
    /// active layer. Fails with `OffCanvas` when the position maps to negative
    /// pixel coordinates and with `OutOfBounds` when it maps past the grid; in
    /// both cases the canvas is unchanged.
    pub fn set_pixel_from_screen_cords(&mut self, pos: ScreenPos, color: Color)
        -> (r: Result<(), CanvasError>)
        requires
            old(self).wf(),
            -SCREEN_LIMIT <= pos.x <= SCREEN_LIMIT,
            -SCREEN_LIMIT <= pos.y <= SCREEN_LIMIT,
        ensures
            final(self).wf(),
            ({
                let x = old(self).spec_camera().spec_screen_to_pixel_x(pos.x as int);
                let y = old(self).spec_camera().spec_screen_to_pixel_y(pos.y as int);
                let l = old(self).spec_active_layer();
                if x < 0 || y < 0 {
                    &&& r == Err::<(), CanvasError>(CanvasError::OffCanvas)
                    &&& *final(self) == *old(self)
                } else if old(self).valid_pixel(x, y, l) {
                    &&& r == Ok::<(), CanvasError>(())
                    &&& final(self).spec_pixels() == old(self).spec_pixels()
                        .update(old(self).pix_index(x, y, l), color)
                    &&& final(self).spec_squares() == old(self).spec_squares()
                        .update(old(self).sq_index(x, y, l),
                            old(self).square_at(x, y, l).spec_recolored(color))
                    &&& final(self).pixel_at(x, y, l) == color
                    &&& *final(self) == (Canvas {
                        pixels: final(self).pixels,
                        squares: final(self).squares,
                        ..*old(self)
                    })
                } else {
                    &&& r == Err::<(), CanvasError>(CanvasError::OutOfBounds)
                    &&& *final(self) == *old(self)
                }
            }),
    {
        let (x, y) = self.camera.screen_to_pixel(pos);
        if x < 0 || y < 0 {
            return Err(CanvasError::OffCanvas);
        }
        if x >= self.width as i64 || y >= self.height as i64 {
            return Err(CanvasError::OutOfBounds);
        }
        self.set_pixel_from_pixel_coords((x as usize, y as usize), color)
    }

    /// The color under the screen position `pos` on layer `layer_idx`, or
    /// `None` when the position is off the grid.
    pub fn get_pixel_from_screen_cords(&self, pos: ScreenPos, layer_idx: usize)
        -> (r: Option<Color>)
        requires
            self.wf(),
            -SCREEN_LIMIT <= pos.x <= SCREEN_LIMIT,
            -SCREEN_LIMIT <= pos.y <= SCREEN_LIMIT,
        ensures
            ({
                let x = self.spec_camera().spec_screen_to_pixel_x(pos.x as int);
                let y = self.spec_camera().spec_screen_to_pixel_y(pos.y as int);
                r == if self.valid_pixel(x, y, layer_idx as int) {
                    Some(self.pixel_at(x, y, layer_idx as int))
                } else {
                    None::<Color>
                }
            }),
    {
        let (x, y) = self.camera.screen_to_pixel(pos);
        if x < 0 || y < 0 || x >= self.width as i64 || y >= self.height as i64 {
            return None;
        }
        self.get_pixel(x as usize, y as usize, layer_idx)
    }

    /// Whether `(x, y)` lies in the filled disc of radius `r` around
    /// `(cx, cy)`: the brush's circle membership test.
    pub open spec fn spec_in_disc(x: int, y: int, cx: int, cy: int, r: int) -> bool {
        (x - cx) * (x - cx) + (y - cy) * (y - cy) < r * r
    }

    /// The pointwise effect of painting every valid pixel of the active layer
    /// that satisfies `hit` with `color`: pixels and their cache entries are
    /// recolored exactly there, and nothing else moves.
    pub open spec fn spec_painted(pre: Canvas, post: Canvas, hit: spec_fn(int, int) -> bool,
        color: Color) -> bool {
        let l = pre.spec_active_layer();
        &&& post.spec_pixels().len() == pre.spec_pixels().len()
        &&& post.spec_squares().len() == pre.spec_squares().len()
        &&& post == (Canvas { pixels: post.pixels, squares: post.squares, ..pre })
        &&& forall|x: int, y: int| pre.valid_pixel(x, y, l)
            ==> post.pixel_at(x, y, l)
                == if hit(x, y) { color } else { pre.pixel_at(x, y, l) }
        &&& forall|x: int, y: int| pre.valid_pixel(x, y, l)
            ==> post.square_at(x, y, l)
                == if hit(x, y) { pre.square_at(x, y, l).spec_recolored(color) }
                    else { pre.square_at(x, y, l) }
        &&& forall|x: int, y: int, l2: int| pre.valid_pixel(x, y, l2) && l2 != l
            ==> post.pixel_at(x, y, l2) == pre.pixel_at(x, y, l2)
                && post.square_at(x, y, l2) == pre.square_at(x, y, l2)
        &&& forall|i: int| 0 <= i < pre.layer_size()
            ==> post.spec_squares()[i] == pre.spec_squares()[i]
    }

    /// Whether `(x, y)` lies in the axis-aligned box with corners `(x1, y1)`
    /// and `(x2, y2)`, inclusive.
    pub open spec fn spec_in_rect(x: int, y: int, x1: int, y1: int, x2: int, y2: int) -> bool {
        x1 <= x <= x2 && y1 <= y <= y2
    }

    /// Fills the axis-aligned pixel rectangle spanned by the pixels under the
    /// two screen positions (corners normalized, both inclusive) on the active
    /// layer, silently skipping pixels outside the grid.
    pub fn set_pixels_from_rect_brush(&mut self, start_pos: ScreenPos, end_pos: ScreenPos,
        color: Color)
        requires
            old(self).wf(),
            -SCREEN_LIMIT <= start_pos.x <= SCREEN_LIMIT,
            -SCREEN_LIMIT <= start_pos.y <= SCREEN_LIMIT,
            -SCREEN_LIMIT <= end_pos.x <= SCREEN_LIMIT,
            -SCREEN_LIMIT <= end_pos.y <= SCREEN_LIMIT,
        ensures
            final(self).wf(),
            ({
                let cam = old(self).spec_camera();
                let ax = cam.spec_screen_to_pixel_x(start_pos.x as int);
                let ay = cam.spec_screen_to_pixel_y(start_pos.y as int);
                let bx = cam.spec_screen_to_pixel_x(end_pos.x as int);
                let by = cam.spec_screen_to_pixel_y(end_pos.y as int);
                let x1 = if ax <= bx { ax } else { bx };
                let x2 = if ax <= bx { bx } else { ax };
                let y1 = if ay <= by { ay } else { by };
                let y2 = if ay <= by { by } else { ay };
                Self::spec_painted(*old(self), *final(self),
                    |x: int, y: int| Self::spec_in_rect(x, y, x1, y1, x2, y2), color)
            }),
    {
        let (ax, ay) = self.camera.screen_to_pixel(start_pos);
        let (bx, by) = self.camera.screen_to_pixel(end_pos);
        let x1: i64 = if ax <= bx { ax } else { bx };
        let x2: i64 = if ax <= bx { bx } else { ax };
        let y1: i64 = if ay <= by { ay } else { by };
        let y2: i64 = if ay <= by { by } else { ay };
        let ghost hit = |x: int, y: int|
            Self::spec_in_rect(x, y, x1 as int, y1 as int, x2 as int, y2 as int);
        let ghost pre = *self;
        let ghost l = self.spec_active_layer();
        let mut y: i64 = y1;
        while y <= y2
            invariant
                self.wf(),
                pre.wf(),
                *self == (Canvas { pixels: self.pixels, squares: self.squares, ..pre }),
                self.spec_pixels().len() == pre.spec_pixels().len(),
                self.spec_squares().len() == pre.spec_squares().len(),
                l == pre.spec_active_layer(),
                -PIXEL_BOUND <= x1 <= PIXEL_BOUND,
                -PIXEL_BOUND <= x2 <= PIXEL_BOUND,
                -PIXEL_BOUND <= y1 <= PIXEL_BOUND,
                -PIXEL_BOUND <= y2 <= PIXEL_BOUND,
                x1 <= x2,
                y1 <= y <= y2 + 1,
                hit == (|x: int, y: int|
                    Self::spec_in_rect(x, y, x1 as int, y1 as int, x2 as int, y2 as int)),
                forall|px: int, py: int| pre.valid_pixel(px, py, l)
                    ==> self.pixel_at(px, py, l)
                        == if hit(px, py) && py < y { color } else { pre.pixel_at(px, py, l) },
                forall|px: int, py: int| pre.valid_pixel(px, py, l)
                    ==> self.square_at(px, py, l)
                        == if hit(px, py) && py < y {
                            pre.square_at(px, py, l).spec_recolored(color)
                        } else { pre.square_at(px, py, l) },
                forall|px: int, py: int, l2: int| pre.valid_pixel(px, py, l2) && l2 != l
                    ==> self.pixel_at(px, py, l2) == pre.pixel_at(px, py, l2)
                        && self.square_at(px, py, l2) == pre.square_at(px, py, l2),
                forall|i: int| 0 <= i < pre.layer_size()
                    ==> self.spec_squares()[i] == pre.spec_squares()[i],
            decreases y2 + 1 - y,
        {
            let mut x: i64 = x1;
            while x <= x2
                invariant
                    self.wf(),
                    pre.wf(),
                    *self == (Canvas { pixels: self.pixels, squares: self.squares, ..pre }),
                    self.spec_pixels().len() == pre.spec_pixels().len(),
                    self.spec_squares().len() == pre.spec_squares().len(),
                    l == pre.spec_active_layer(),
                    -PIXEL_BOUND <= x1 <= PIXEL_BOUND,
                    -PIXEL_BOUND <= x2 <= PIXEL_BOUND,
                    -PIXEL_BOUND <= y1 <= PIXEL_BOUND,
                    -PIXEL_BOUND <= y2 <= PIXEL_BOUND,
                    y1 <= y <= y2,
                    x1 <= x <= x2 + 1,
                    hit == (|x: int, y: int|
                        Self::spec_in_rect(x, y, x1 as int, y1 as int, x2 as int, y2 as int)),
                    forall|px: int, py: int| pre.valid_pixel(px, py, l)
                        ==> self.pixel_at(px, py, l)
                            == if hit(px, py) && (py < y || (py == y && px < x)) {
                                color
                            } else { pre.pixel_at(px, py, l) },
                    forall|px: int, py: int| pre.valid_pixel(px, py, l)
                        ==> self.square_at(px, py, l)
                            == if hit(px, py) && (py < y || (py == y && px < x)) {
                                pre.square_at(px, py, l).spec_recolored(color)
                            } else { pre.square_at(px, py, l) },
                    forall|px: int, py: int, l2: int| pre.valid_pixel(px, py, l2) && l2 != l
                        ==> self.pixel_at(px, py, l2) == pre.pixel_at(px, py, l2)
                            && self.square_at(px, py, l2) == pre.square_at(px, py, l2),
                    forall|i: int| 0 <= i < pre.layer_size()
                        ==> self.spec_squares()[i] == pre.spec_squares()[i],
                decreases x2 + 1 - x,
            {
                if x >= 0 && y >= 0 && x < self.width as i64 && y < self.height as i64 {
                    let ghost before = *self;
                    let _ = self.set_pixel_from_pixel_coords((x as usize, y as usize), color);
                    proof {
                        before.lemma_pix_index(x as int, y as int, l);
                        before.lemma_sq_index(x as int, y as int, l);
                        assert forall|px: int, py: int| pre.valid_pixel(px, py, l)
                            implies self.pixel_at(px, py, l)
                                == if hit(px, py) && (py < y || (py == y && px < x + 1)) {
                                    color
                                } else { pre.pixel_at(px, py, l) } by {
                            before.lemma_pix_index(px, py, l);
                            if px != x as int || py != y as int {
                                assert(before.pix_index(px, py, l)
                                    != before.pix_index(x as int, y as int, l));
                            }
                        }
                        assert forall|px: int, py: int| pre.valid_pixel(px, py, l)
                            implies self.square_at(px, py, l)
                                == if hit(px, py) && (py < y || (py == y && px < x + 1)) {
                                    pre.square_at(px, py, l).spec_recolored(color)
                                } else { pre.square_at(px, py, l) } by {
                            before.lemma_sq_index(px, py, l);
                            if px != x as int || py != y as int {
                                assert(before.sq_index(px, py, l)
                                    != before.sq_index(x as int, y as int, l));
                            }
                        }
                        assert forall|px: int, py: int, l2: int|
                            pre.valid_pixel(px, py, l2) && l2 != l
                            implies self.pixel_at(px, py, l2) == pre.pixel_at(px, py, l2)
                                && self.square_at(px, py, l2) == pre.square_at(px, py, l2) by {
                            before.lemma_pix_index(px, py, l2);
                            before.lemma_sq_index(px, py, l2);
                            assert(before.pix_index(px, py, l2)
                                != before.pix_index(x as int, y as int, l));
                            assert(before.sq_index(px, py, l2)
                                != before.sq_index(x as int, y as int, l));
                        }
                    }
                }
                x += 1;
            }
            y += 1;
        }
    }

    /// Stamps a filled disc of `radius` grid pixels (a radius below one is
    /// clamped to one) centered under the screen position `pos` onto the
    /// active layer, silently skipping pixels outside the grid.
    pub fn set_pixels_from_brush(&mut self, pos: ScreenPos, radius: usize, color: Color)
        requires
            old(self).wf(),
            -SCREEN_LIMIT <= pos.x <= SCREEN_LIMIT,
            -SCREEN_LIMIT <= pos.y <= SCREEN_LIMIT,
            radius <= 4096,
        ensures
            final(self).wf(),
            ({
                let cx = old(self).spec_camera().spec_screen_to_pixel_x(pos.x as int);
                let cy = old(self).spec_camera().spec_screen_to_pixel_y(pos.y as int);
                let r = if radius < 1 { 1int } else { radius as int };
                Self::spec_painted(*old(self), *final(self),
                    |x: int, y: int| Self::spec_in_disc(x, y, cx, cy, r), color)
            }),
    {
        let r: i64 = if radius < 1 { 1 } else { radius as i64 };
        let (cx, cy) = self.camera.screen_to_pixel(pos);
        let ghost hit = |x: int, y: int|
            Self::spec_in_disc(x, y, cx as int, cy as int, r as int);
        let ghost pre = *self;
        let ghost l = self.spec_active_layer();
        proof {
            assert forall|x: int, y: int| #[trigger] hit(x, y)
                implies -r < x - cx < r && -r < y - cy < r by {
                let ddx = x - cx as int;
                let ddy = y - cy as int;
                assert(ddx * ddx + ddy * ddy < (r as int) * (r as int)
                    ==> (-r < ddx < r && -r < ddy < r)) by (nonlinear_arith)
                    requires 0 < r as int,
                ;
            }
        }
        let mut dy: i64 = -r;
        while dy <= r
            invariant
                self.wf(),
                pre.wf(),
                *self == (Canvas { pixels: self.pixels, squares: self.squares, ..pre }),
                self.spec_pixels().len() == pre.spec_pixels().len(),
                self.spec_squares().len() == pre.spec_squares().len(),
                l == pre.spec_active_layer(),
                1 <= r <= 4096,
                -PIXEL_BOUND <= cx <= PIXEL_BOUND,
                -PIXEL_BOUND <= cy <= PIXEL_BOUND,
                -r <= dy <= r + 1,
                hit == (|x: int, y: int|
                    Self::spec_in_disc(x, y, cx as int, cy as int, r as int)),
                forall|x: int, y: int| #[trigger] hit(x, y)
                    ==> -r < x - cx < r && -r < y - cy < r,
                forall|x: int, y: int| pre.valid_pixel(x, y, l)
                    ==> self.pixel_at(x, y, l)
                        == if hit(x, y) && y - cy < dy { color } else { pre.pixel_at(x, y, l) },
                forall|x: int, y: int| pre.valid_pixel(x, y, l)
                    ==> self.square_at(x, y, l)
                        == if hit(x, y) && y - cy < dy {
                            pre.square_at(x, y, l).spec_recolored(color)
                        } else { pre.square_at(x, y, l) },
                forall|x: int, y: int, l2: int| pre.valid_pixel(x, y, l2) && l2 != l
                    ==> self.pixel_at(x, y, l2) == pre.pixel_at(x, y, l2)
                        && self.square_at(x, y, l2) == pre.square_at(x, y, l2),
                forall|i: int| 0 <= i < pre.layer_size()
                    ==> self.spec_squares()[i] == pre.spec_squares()[i],
            decreases r + 1 - dy,
        {
            let mut dx: i64 = -r;
            while dx <= r
                invariant
                    self.wf(),
                    pre.wf(),
                    *self == (Canvas { pixels: self.pixels, squares: self.squares, ..pre }),
                    self.spec_pixels().len() == pre.spec_pixels().len(),
                    self.spec_squares().len() == pre.spec_squares().len(),
                    l == pre.spec_active_layer(),
                    1 <= r <= 4096,
                    -PIXEL_BOUND <= cx <= PIXEL_BOUND,
                    -PIXEL_BOUND <= cy <= PIXEL_BOUND,
                    -r <= dy <= r,
                    -r <= dx <= r + 1,
                    hit == (|x: int, y: int|
                        Self::spec_in_disc(x, y, cx as int, cy as int, r as int)),
                    forall|x: int, y: int| #[trigger] hit(x, y)
                        ==> -r < x - cx < r && -r < y - cy < r,
                    forall|x: int, y: int| pre.valid_pixel(x, y, l)
                        ==> self.pixel_at(x, y, l)
                            == if hit(x, y) && (y - cy < dy || (y - cy == dy && x - cx < dx)) {
                                color
                            } else { pre.pixel_at(x, y, l) },
                    forall|x: int, y: int| pre.valid_pixel(x, y, l)
                        ==> self.square_at(x, y, l)
                            == if hit(x, y) && (y - cy < dy || (y - cy == dy && x - cx < dx)) {
                                pre.square_at(x, y, l).spec_recolored(color)
                            } else { pre.square_at(x, y, l) },
                    forall|x: int, y: int, l2: int| pre.valid_pixel(x, y, l2) && l2 != l
                        ==> self.pixel_at(x, y, l2) == pre.pixel_at(x, y, l2)
                            && self.square_at(x, y, l2) == pre.square_at(x, y, l2),
                    forall|i: int| 0 <= i < pre.layer_size()
                        ==> self.spec_squares()[i] == pre.spec_squares()[i],
                decreases r + 1 - dx,
            {
                proof {
                    assert(0 <= dx * dx <= 4097 * 4097 && 0 <= dy * dy <= 4097 * 4097
                        && 0 <= r * r <= 4097 * 4097) by (nonlinear_arith)
                        requires
                            -4097 <= dx <= 4097,
                            -4097 <= dy <= 4097,
                            0 <= r <= 4097,
                    ;
                }
                if dx * dx + dy * dy < r * r {
                    let w: i64 = cx + dx;
                    let h: i64 = cy + dy;
                    if w >= 0 && h >= 0 && w < self.width as i64 && h < self.height as i64 {
                        let ghost before = *self;
                        let _ = self.set_pixel_from_pixel_coords(
                            (w as usize, h as usize), color);
                        proof {
                            before.lemma_pix_index(w as int, h as int, l);
                            before.lemma_sq_index(w as int, h as int, l);
                            assert forall|x: int, y: int| pre.valid_pixel(x, y, l)
                                implies self.pixel_at(x, y, l)
                                    == if hit(x, y)
                                        && (y - cy < dy || (y - cy == dy && x - cx < dx + 1)) {
                                        color
                                    } else { pre.pixel_at(x, y, l) } by {
                                before.lemma_pix_index(x, y, l);
                                if x != w as int || y != h as int {
                                    assert(before.pix_index(x, y, l)
                                        != before.pix_index(w as int, h as int, l));
                                }
                            }
                            assert forall|x: int, y: int| pre.valid_pixel(x, y, l)
                                implies self.square_at(x, y, l)
                                    == if hit(x, y)
                                        && (y - cy < dy || (y - cy == dy && x - cx < dx + 1)) {
                                        pre.square_at(x, y, l).spec_recolored(color)
                                    } else { pre.square_at(x, y, l) } by {
                                before.lemma_sq_index(x, y, l);
                                if x != w as int || y != h as int {
                                    assert(before.sq_index(x, y, l)
                                        != before.sq_index(w as int, h as int, l));
                                }
                            }
                            assert forall|x: int, y: int, l2: int|
                                pre.valid_pixel(x, y, l2) && l2 != l
                                implies self.pixel_at(x, y, l2) == pre.pixel_at(x, y, l2)
                                    && self.square_at(x, y, l2) == pre.square_at(x, y, l2) by {
                                before.lemma_pix_index(x, y, l2);
                                before.lemma_sq_index(x, y, l2);
                                assert(before.pix_index(x, y, l2)
                                    != before.pix_index(w as int, h as int, l));
                                assert(before.sq_index(x, y, l2)
                                    != before.sq_index(w as int, h as int, l));
                            }
                        }
                    }
                }
                dx += 1;
            }
            dy += 1;
        }
    }

    /// Appends a new transparent, visible layer at the end, named by the next
    /// counter value (names are never reused, even after a deletion), grows
    /// the pixel and cache storage, and rebuilds the cache.
    pub fn add_layer(&mut self)
        requires
            old(self).wf(),
            old(self).spec_layers() < MAX_LAYERS,
            old(self).spec_layer_name_cnt() < u64::MAX,
        ensures
            final(self).wf(),
            final(self).spec_layers() == old(self).spec_layers() + 1,
            final(self).spec_active_layer() == old(self).spec_active_layer(),
            final(self).spec_layer_names()
                == old(self).spec_layer_names().push(old(self).spec_layer_name_cnt()),
            final(self).spec_layer_name_cnt() == old(self).spec_layer_name_cnt() + 1,
            final(self).spec_layers_to_show() == old(self).spec_layers_to_show().push(true),
            final(self).spec_pixels() == old(self).spec_pixels()
                + Seq::new(old(self).layer_size() as nat, |i: int| Color::spec_transparent()),
            final(self).same_dims(*old(self)),
            final(self).spec_camera() == old(self).spec_camera(),
            final(self).spec_stroke() == old(self).spec_stroke(),
            final(self).cache_rebuilt(),
            Canvas::spec_layer_added(*old(self), *final(self)),
    {
        proof {
            self.lemma_offset_bounds(0, 0, 0);
            let ls = self.layer_size();
            let n = self.layers as int;
            assert(ls * (n + 1) == ls * n + ls && ls * (n + 2) == ls * (n + 1) + ls
                && ls * (n + 1) <= ls * 256 && ls * 256 <= 0x40_0000 * 256
                && ls * (n + 2) <= ls * 257 && ls * 257 <= 0x40_0000 * 257)
                by (nonlinear_arith)
                requires
                    0 <= ls <= 0x40_0000,
                    1 <= n < 256,
            ;
        }
        self.layers = self.layers + 1;
        self.layer_names.push(self.layer_name_cnt);
        self.layer_name_cnt = self.layer_name_cnt + 1;
        self.layers_to_show.push(true);
        let ls = self.width * self.height;
        let ghost after_meta = *self;
        let ghost pixels0 = self.pixels@;
        let mut added: usize = 0;
        while added < ls
            invariant
                added <= ls,
                ls <= 0x40_0000,
                pixels0.len() + ls <= 0x4100_0000,
                *self == (Canvas { pixels: self.pixels, ..after_meta }),
                self.pixels@ == pixels0
                    + Seq::new(added as nat, |i: int| Color::spec_transparent()),
            decreases ls - added,
        {
            self.pixels.push(Color::transparent());
            proof {
                assert(self.pixels@ =~= pixels0
                    + Seq::new((added + 1) as nat, |i: int| Color::spec_transparent()));
            }
            added = added + 1;
        }
        let ghost mid = *self;
        let mut added_sq: usize = 0;
        while added_sq < ls
            invariant
                added_sq <= ls,
                self.squares@.len() == mid.squares@.len() + added_sq,
                *self == (Canvas { squares: self.squares, ..mid }),
            decreases ls - added_sq,
        {
            self.squares.push(Square::placeholder());
            added_sq = added_sq + 1;
        }
        self.update_squares();
    }

    /// Removes the pixels and cache entries of layer `layer_idx`, drops its
    /// name and visibility flag, pulls the active layer down by one when it
    /// pointed at the last layer, and rebuilds the cache. Deleting the sole
    /// remaining layer is the callers' responsibility to avoid.
    pub fn delete_layer(&mut self, layer_idx: usize)
        requires
            old(self).wf(),
            layer_idx < old(self).spec_layers(),
            old(self).spec_layers() >= 2,
        ensures
            final(self).wf(),
            final(self).spec_layers() == old(self).spec_layers() - 1,
            final(self).spec_active_layer()
                == if old(self).spec_active_layer() == old(self).spec_layers() - 1 {
                    old(self).spec_active_layer() - 1
                } else { old(self).spec_active_layer() },
            final(self).spec_layer_names()
                == old(self).spec_layer_names().remove(layer_idx as int),
            final(self).spec_layer_name_cnt() == old(self).spec_layer_name_cnt(),
            final(self).spec_layers_to_show()
                == old(self).spec_layers_to_show().remove(layer_idx as int),
            final(self).spec_pixels()
                == old(self).spec_pixels()
                    .subrange(0, old(self).layer_size() * layer_idx)
                + old(self).spec_pixels().subrange(
                    old(self).layer_size() * (layer_idx + 1),
                    old(self).spec_pixels().len() as int),
            final(self).same_dims(*old(self)),
            final(self).spec_camera() == old(self).spec_camera(),
            final(self).spec_stroke() == old(self).spec_stroke(),
            final(self).cache_rebuilt(),
            Canvas::spec_layer_deleted(*old(self), layer_idx as int, *final(self)),
    {
        proof {
            self.lemma_offset_bounds(0, 0, layer_idx as int);
            let lsg = self.layer_size();
            let li = layer_idx as int;
            let n = self.layers as int;
            assert(lsg * (li + 1) == lsg * li + lsg
                && lsg * (li + 2) == lsg * li + 2 * lsg
                && (li + 2 <= n + 1 && 0 <= lsg ==> lsg * (li + 2) <= lsg * (n + 1))
                && (li + 1 <= n && 0 <= lsg ==> lsg * (li + 1) <= lsg * n))
                by (nonlinear_arith);
        }
        let ls = self.width * self.height;
        let start_idx = ls * layer_idx;
        let end_idx = start_idx + ls;
        remove_range(&mut self.pixels, start_idx, end_idx);
        remove_range(&mut self.squares, start_idx + ls, end_idx + ls);
        if self.layers > 1 && self.active_layer == self.layers - 1 {
            self.active_layer = self.active_layer - 1;
        }
        self.layers = self.layers - 1;
        self.layer_names.remove(layer_idx);
        self.layers_to_show.remove(layer_idx);
        proof {
            let ls = old(self).layer_size();
            let n = old(self).layers as int;
            assert(ls * n - ls == ls * (n - 1) && ls * (n + 1) - ls == ls * n)
                by (nonlinear_arith);
        }
        self.update_squares();
    }

    /// The color under `(x, y)` on layer `layer_idx`, or `None` off the grid.
    pub fn get_pixel(&self, x: usize, y: usize, layer_idx: usize) -> (r: Option<Color>)
        requires
            self.wf(),
        ensures
            r == if self.valid_pixel(x as int, y as int, layer_idx as int) {
                Some(self.pixel_at(x as int, y as int, layer_idx as int))
            } else {
                None::<Color>
            },
    {
        if layer_idx < self.layers && x < self.width && y < self.height {
            let i = self.pix_offset(x, y, layer_idx);
            Some(self.pixels[i])
        } else {
            None
        }
    }
}

/// Removes the entries `start..end` from `v`, shifting the tail down.
fn remove_range<T: Copy>(v: &mut Vec<T>, start: usize, end: usize)
    requires
        start <= end,
        end <= old(v).len(),
    ensures
        final(v)@ == old(v)@.subrange(0, start as int)
            + old(v)@.subrange(end as int, old(v)@.len() as int),
{
    let len = v.len();
    let mut i = end;
    while i < len
        invariant
            start <= end <= i <= len,
            len == v@.len(),
            len == old(v)@.len(),
            forall|j: int| 0 <= j < start ==> v@[j] == old(v)@[j],
            forall|j: int| start <= j < start + (i - end)
                ==> v@[j] == old(v)@[j + (end - start)],
            forall|j: int| start + (i - end) <= j < len ==> v@[j] == old(v)@[j],
        decreases len - i,
    {
        let value = v[i];
        v.set(start + (i - end), value);
        i = i + 1;
    }
    v.truncate(len - (end - start));
    proof {
        assert(v@ =~= old(v)@.subrange(0, start as int)
            + old(v)@.subrange(end as int, old(v)@.len() as int));
    }
}
impl Canvas {
    /// Whether `state` captures exactly this canvas's restorable data.
    pub open spec fn spec_captured(self, state: CanvasState) -> bool {
        &&& state.layers == self.spec_layers()
        &&& state.active_layer == self.spec_active_layer()
        &&& state.layer_names@ == self.spec_layer_names()
        &&& state.layer_name_cnt == self.spec_layer_name_cnt()
        &&& state.layers_to_show@ == self.spec_layers_to_show()
        &&& state.pixels@ == self.spec_pixels()
        &&& state.squares@ == self.spec_squares()
    }

    /// Whether `post` is `pre` with all restorable data replaced from `state`
    /// and the cache rebuilt against the camera as it stands now (the
    /// snapshot's own cache copy is used only as an initial value and is
    /// unconditionally rebuilt, since geometry must stay consistent with the
    /// current camera, not the camera at snapshot time).
    pub open spec fn spec_restored(pre: Canvas, state: CanvasState, post: Canvas) -> bool {
        &&& post.spec_layers() == state.layers
        &&& post.spec_active_layer() == state.active_layer
        &&& post.spec_layer_names() == state.layer_names@
        &&& post.spec_layer_name_cnt() == state.layer_name_cnt
        &&& post.spec_layers_to_show() == state.layers_to_show@
        &&& post.spec_pixels() == state.pixels@
        &&& post.same_dims(pre)
        &&& post.spec_camera() == pre.spec_camera()
        &&& post.spec_stroke() == pre.spec_stroke()
        &&& post.cache_rebuilt()
    }

    /// Deep-copies all owned state into an immutable snapshot.
    pub fn create_state(&self) -> (s: CanvasState)
        requires
            self.wf(),
        ensures
            self.spec_captured(s),
            s.wf(self.spec_width(), self.spec_height()),
    {
        let s = CanvasState::new(
            self.layers,
            self.active_layer,
            self.layer_names.clone(),
            self.layer_name_cnt,
            self.layers_to_show.clone(),
            self.pixels.clone(),
            self.squares.clone(),
        );
        proof {
            assert(s.layer_names@ =~= self.spec_layer_names());
            assert(s.layers_to_show@ =~= self.spec_layers_to_show());
            assert(s.pixels@ =~= self.spec_pixels());
            assert(s.squares@ =~= self.spec_squares());
        }
        s
    }

    /// Replaces all owned state from the snapshot, then rebuilds the cache.
    pub fn load_state(&mut self, state: &CanvasState)
        requires
            old(self).wf(),
            state.wf(old(self).spec_width(), old(self).spec_height()),
        ensures
            final(self).wf(),
            Canvas::spec_restored(*old(self), *state, *final(self)),
    {
        self.layers = state.layers;
        self.active_layer = state.active_layer;
        self.layer_names = state.layer_names.clone();
        self.layer_name_cnt = state.layer_name_cnt;
        self.layers_to_show = state.layers_to_show.clone();
        self.pixels = state.pixels.clone();
        self.squares = state.squares.clone();
        proof {
            assert(self.layer_names@ =~= state.layer_names@);
            assert(self.layers_to_show@ =~= state.layers_to_show@);
            assert(self.pixels@ =~= state.pixels@);
            assert(self.squares@ =~= state.squares@);
        }
        self.update_squares();
    }

    /// Writing a pixel and reading it back returns the written color: for any
    /// wf canvas and any valid cell of the active layer, the grid after a
    /// successful single-pixel write reports exactly that color there.
    pub proof fn lemma_set_then_get(pre: Canvas, post: Canvas, x: int, y: int, color: Color)
        requires
            pre.wf(),
            post.wf(),
            pre.valid_pixel(x, y, pre.spec_active_layer()),
            post.spec_pixels() == pre.spec_pixels()
                .update(pre.pix_index(x, y, pre.spec_active_layer()), color),
            post.same_dims(pre),
            post.spec_layers() == pre.spec_layers(),
            post.spec_active_layer() == pre.spec_active_layer(),
        ensures
            post.pixel_at(x, y, pre.spec_active_layer()) == color,
            forall|x2: int, y2: int, l2: int|
                pre.valid_pixel(x2, y2, l2) && (x2 != x || y2 != y
                    || l2 != pre.spec_active_layer())
                    ==> post.pixel_at(x2, y2, l2) == pre.pixel_at(x2, y2, l2),
    {
        let l = pre.spec_active_layer();
        pre.lemma_pix_index(x, y, l);
        assert forall|x2: int, y2: int, l2: int|
            pre.valid_pixel(x2, y2, l2) && (x2 != x || y2 != y || l2 != l)
                implies post.pixel_at(x2, y2, l2) == pre.pixel_at(x2, y2, l2) by {
            pre.lemma_pix_index(x2, y2, l2);
        }
    }

    /// A snapshot followed immediately by a restore is a no-op on all
    /// externally observable state: pixels, layer metadata, the active layer,
    /// the camera and the stroke.
    pub proof fn lemma_snapshot_restore_noop(c: Canvas, s: CanvasState, c2: Canvas)
        requires
            c.wf(),
            c.spec_captured(s),
            Canvas::spec_restored(c, s, c2),
        ensures
            c2.spec_pixels() == c.spec_pixels(),
            c2.spec_layers() == c.spec_layers(),
            c2.spec_active_layer() == c.spec_active_layer(),
            c2.spec_layer_names() == c.spec_layer_names(),
            c2.spec_layer_name_cnt() == c.spec_layer_name_cnt(),
            c2.spec_layers_to_show() == c.spec_layers_to_show(),
            c2.same_dims(c),
            c2.spec_camera() == c.spec_camera(),
            c2.spec_stroke() == c.spec_stroke(),
    {
    }

    /// Whether `post` is `pre` with one fresh transparent visible layer
    /// appended at the end: the relation `add_layer` establishes.
    pub open spec fn spec_layer_added(pre: Canvas, post: Canvas) -> bool {
        &&& post.spec_layers() == pre.spec_layers() + 1
        &&& post.spec_active_layer() == pre.spec_active_layer()
        &&& post.spec_layer_names()
            == pre.spec_layer_names().push(pre.spec_layer_name_cnt())
        &&& post.spec_layer_name_cnt() == pre.spec_layer_name_cnt() + 1
        &&& post.spec_layers_to_show() == pre.spec_layers_to_show().push(true)
        &&& post.spec_pixels() == pre.spec_pixels()
            + Seq::new(pre.layer_size() as nat, |i: int| Color::spec_transparent())
        &&& post.same_dims(pre)
    }

    /// Whether `post` is `pre` with layer `idx` removed: the relation
    /// `delete_layer` establishes.
    pub open spec fn spec_layer_deleted(pre: Canvas, idx: int, post: Canvas) -> bool {
        &&& post.spec_layers() == pre.spec_layers() - 1
        &&& post.spec_active_layer()
            == if pre.spec_active_layer() == pre.spec_layers() - 1 {
                pre.spec_active_layer() - 1
            } else { pre.spec_active_layer() }
        &&& post.spec_layer_names() == pre.spec_layer_names().remove(idx)
        &&& post.spec_layer_name_cnt() == pre.spec_layer_name_cnt()
        &&& post.spec_layers_to_show() == pre.spec_layers_to_show().remove(idx)
        &&& post.spec_pixels()
            == pre.spec_pixels().subrange(0, pre.layer_size() * idx)
            + pre.spec_pixels().subrange(pre.layer_size() * (idx + 1),
                pre.spec_pixels().len() as int)
        &&& post.same_dims(pre)
    }

    /// Adding a layer and then deleting that newly added layer returns the
    /// grid dimensions, the pixel contents of the remaining layers, the layer
    /// metadata and the active layer to their pre-add values (only the name
    /// counter keeps counting: names are never reused).
    pub proof fn lemma_add_then_delete_restores(c: Canvas, c1: Canvas, c2: Canvas)
        requires
            c.wf(),
            c1.wf(),
            Canvas::spec_layer_added(c, c1),
            Canvas::spec_layer_deleted(c1, c.spec_layers(), c2),
        ensures
            c2.spec_pixels() == c.spec_pixels(),
            c2.spec_layers() == c.spec_layers(),
            c2.spec_active_layer() == c.spec_active_layer(),
            c2.spec_layer_names() == c.spec_layer_names(),
            c2.spec_layers_to_show() == c.spec_layers_to_show(),
            c2.same_dims(c),
    {
        let ls = c.layer_size();
        let idx = c.spec_layers();
        assert(c1.layer_size() == ls);
        assert(c.spec_pixels().len() == ls * idx);
        assert(ls * (idx + 1) == ls * idx + ls) by (nonlinear_arith);
        assert(c1.spec_pixels().len() == ls * idx + ls);
        assert(c2.spec_pixels() =~= c.spec_pixels());
        assert(c2.spec_layer_names() =~= c.spec_layer_names());
        assert(c2.spec_layers_to_show() =~= c.spec_layers_to_show());
    }
}
impl Default for Canvas {
    /// A fresh default-sized canvas.
    fn default() -> (c: Canvas)
        ensures
            c.wf(),
            c.spec_width() == DEFAULT_SIZE,
            c.spec_height() == DEFAULT_SIZE,
            c.spec_layers() == 1,
            c.spec_active_layer() == 0,
    {
        Canvas::new(DEFAULT_SIZE, DEFAULT_SIZE)
    }
}

impl Canvas {
    /// A copy of the full squares cache, checkerboard block first.
    pub fn get_squares(&self) -> (r: Vec<Square>)
        ensures
            r@ == self.spec_squares(),
    {
        let r = self.squares.clone();
        proof {
            assert(r@ =~= self.spec_squares());
        }
        r
    }

    /// Rounds both coordinates of `coord` (sub-units) to the nearest multiple
    /// of `interval` whole screen pixels, halves rounding up.
    pub fn round_coords(coord: ScreenPos, interval: usize) -> (r: ScreenPos)
        requires
            1 <= interval <= 0x10000,
            -SCREEN_LIMIT <= coord.x <= SCREEN_LIMIT,
            -SCREEN_LIMIT <= coord.y <= SCREEN_LIMIT,
        ensures
            ({
                let step = interval * (SUBPIXEL as int);
                &&& r.x == ((coord.x + step / 2) / step) * step
                &&& r.y == ((coord.y + step / 2) / step) * step
            }),
    {
        let step: i64 = (interval as u64 * SUBPIXEL) as i64;
        let qx: i64 = crate::camera::floor_div(coord.x + step / 2, step);
        let qy: i64 = crate::camera::floor_div(coord.y + step / 2, step);
        proof {
            crate::camera::lemma_div_bound((coord.x + step / 2) as int, step as int,
                2 * SCREEN_LIMIT as int);
            crate::camera::lemma_div_bound((coord.y + step / 2) as int, step as int,
                2 * SCREEN_LIMIT as int);
            let m = 2 * SCREEN_LIMIT as int;
            assert((-(m / (step as int)) - 1) * step as int >= -2 * m
                && (m / (step as int)) * step as int <= m) by {
                vstd::arithmetic::div_mod::lemma_fundamental_div_mod(m, step as int);
                vstd::arithmetic::mul::lemma_mul_inequality(
                    -(m / (step as int)) - 1, m, step as int);
                vstd::arithmetic::mul::lemma_mul_inequality(
                    m / (step as int), m, step as int);
                assert((m / (step as int)) * step as int <= m
                    && (-(m / (step as int)) - 1) * step as int
                        == -((m / (step as int)) * step as int) - step as int)
                    by (nonlinear_arith)
                    requires
                        (step as int) * (m / (step as int)) + m % (step as int) == m,
                        0 <= m % (step as int) < step as int,
                        0 < step as int,
                ;
            }
            vstd::arithmetic::mul::lemma_mul_inequality(qx as int, m / (step as int),
                step as int);
            vstd::arithmetic::mul::lemma_mul_inequality(-(m / (step as int)) - 1,
                qx as int, step as int);
            vstd::arithmetic::mul::lemma_mul_inequality(qy as int, m / (step as int),
                step as int);
            vstd::arithmetic::mul::lemma_mul_inequality(-(m / (step as int)) - 1,
                qy as int, step as int);
        }
        ScreenPos { x: qx * step, y: qy * step }
    }
}
/// One row of the circle-brush preview: the highlight squares for the offsets
/// `dx..=r` of row `dy` that fall inside the disc, in visiting order.
pub open spec fn spec_circle_row(cam: Camera, w: int, h: int, dy: int, dx: int, r: int)
    -> Seq<Square>
    decreases r + 1 - dx,
    when dx <= r + 1
{
    if dx > r {
        Seq::empty()
    } else {
        (if dx * dx + dy * dy < r * r {
            seq![cam.spec_square_at(w + dx, h + dy, Color::spec_highlight())]
        } else {
            Seq::empty()
        }) + spec_circle_row(cam, w, h, dy, dx + 1, r)
    }
}

/// The whole circle-brush preview from row `dy` down: rows `dy..=r`
/// concatenated in visiting order.
pub open spec fn spec_circle_rows(cam: Camera, w: int, h: int, dy: int, r: int)
    -> Seq<Square>
    decreases r + 1 - dy,
    when dy <= r + 1
{
    if dy > r {
        Seq::empty()
    } else {
        spec_circle_row(cam, w, h, dy, -r, r) + spec_circle_rows(cam, w, h, dy + 1, r)
    }
}

impl Canvas {
    /// The non-persisted highlight squares of the brush cursor: one
    /// semi-transparent square per pixel of the disc of `radius` around the
    /// pixel under `pos`, in row-major visiting order. Does not mutate the
    /// grid.
    pub fn get_circle_brush(&self, pos: ScreenPos, radius: usize) -> (brush: Vec<Square>)
        requires
            self.wf(),
            -SCREEN_LIMIT <= pos.x <= SCREEN_LIMIT,
            -SCREEN_LIMIT <= pos.y <= SCREEN_LIMIT,
            radius <= 4096,
        ensures
            ({
                let w = self.spec_camera().spec_screen_to_pixel_x(pos.x as int);
                let h = self.spec_camera().spec_screen_to_pixel_y(pos.y as int);
                brush@ == spec_circle_rows(self.spec_camera(), w, h,
                    -(radius as int), radius as int)
            }),
    {
        let r: i64 = radius as i64;
        let (w, h) = self.camera.screen_to_pixel(pos);
        let ghost total = spec_circle_rows(self.spec_camera(), w as int, h as int,
            -(r as int), r as int);
        let mut brush: Vec<Square> = Vec::new();
        let mut dy: i64 = -r;
        while dy <= r
            invariant
                self.wf(),
                0 <= r <= 4096,
                -PIXEL_BOUND <= w <= PIXEL_BOUND,
                -PIXEL_BOUND <= h <= PIXEL_BOUND,
                -r <= dy <= r + 1,
                total == spec_circle_rows(self.spec_camera(), w as int, h as int,
                    -(r as int), r as int),
                total == brush@ + spec_circle_rows(self.spec_camera(), w as int, h as int,
                    dy as int, r as int),
            decreases r + 1 - dy,
        {
            let mut dx: i64 = -r;
            proof {
                assert(spec_circle_rows(self.spec_camera(), w as int, h as int,
                        dy as int, r as int)
                    == spec_circle_row(self.spec_camera(), w as int, h as int,
                        dy as int, -(r as int), r as int)
                    + spec_circle_rows(self.spec_camera(), w as int, h as int,
                        dy as int + 1, r as int));
            }
            while dx <= r
                invariant
                    self.wf(),
                    0 <= r <= 4096,
                    -PIXEL_BOUND <= w <= PIXEL_BOUND,
                    -PIXEL_BOUND <= h <= PIXEL_BOUND,
                    -r <= dy <= r,
                    -r <= dx <= r + 1,
                    total == brush@
                        + spec_circle_row(self.spec_camera(), w as int, h as int,
                            dy as int, dx as int, r as int)
                        + spec_circle_rows(self.spec_camera(), w as int, h as int,
                            dy as int + 1, r as int),
                decreases r + 1 - dx,
            {
                proof {
                    assert(0 <= dx * dx <= 4097 * 4097 && 0 <= dy * dy <= 4097 * 4097
                        && 0 <= r * r <= 4097 * 4097) by (nonlinear_arith)
                        requires
                            -4097 <= dx <= 4097,
                            -4097 <= dy <= 4097,
                            0 <= r <= 4097,
                    ;
                }
                let ghost row_before = spec_circle_row(self.spec_camera(), w as int,
                    h as int, dy as int, dx as int, r as int);
                let ghost rest = spec_circle_rows(self.spec_camera(), w as int, h as int,
                    dy as int + 1, r as int);
                if dx * dx + dy * dy < r * r {
                    let sq = self.camera.square_from_pixel(w + dx, h + dy,
                        Color::highlight());
                    brush.push(sq);
                    proof {
                        assert(row_before == seq![sq]
                            + spec_circle_row(self.spec_camera(), w as int, h as int,
                                dy as int, dx as int + 1, r as int));
                        assert(brush@ + spec_circle_row(self.spec_camera(), w as int,
                                h as int, dy as int, dx as int + 1, r as int) + rest
                            =~= brush@.drop_last() + row_before + rest);
                    }
                } else {
                    proof {
                        assert(row_before == spec_circle_row(self.spec_camera(),
                            w as int, h as int, dy as int, dx as int + 1, r as int));
                    }
                }
                dx += 1;
            }
            proof {
                assert(spec_circle_row(self.spec_camera(), w as int, h as int,
                    dy as int, r as int + 1, r as int) =~= Seq::<Square>::empty());
                assert(brush@ + Seq::<Square>::empty() + spec_circle_rows(
                        self.spec_camera(), w as int, h as int, dy as int + 1, r as int)
                    =~= brush@ + spec_circle_rows(self.spec_camera(), w as int,
                        h as int, dy as int + 1, r as int));
            }
            dy += 1;
        }
        proof {
            assert(spec_circle_rows(self.spec_camera(), w as int, h as int,
                r as int + 1, r as int) =~= Seq::<Square>::empty());
            assert(brush@ + Seq::<Square>::empty() =~= brush@);
        }
        brush
    }

    /// The rectangle tool's preview: one semi-transparent highlight rectangle
    /// spanning the pixels under the two screen positions, corners normalized,
    /// covering the spanned pixel cells fully. Does not mutate the grid.
    pub fn get_rect_brush(&self, start_pos: ScreenPos, end_pos: ScreenPos)
        -> (rect: ScreenRect)
        requires
            self.wf(),
            -SCREEN_LIMIT <= start_pos.x <= SCREEN_LIMIT,
            -SCREEN_LIMIT <= start_pos.y <= SCREEN_LIMIT,
            -SCREEN_LIMIT <= end_pos.x <= SCREEN_LIMIT,
            -SCREEN_LIMIT <= end_pos.y <= SCREEN_LIMIT,
        ensures
            ({
                let cam = self.spec_camera();
                let ax = cam.spec_screen_to_pixel_x(start_pos.x as int);
                let ay = cam.spec_screen_to_pixel_y(start_pos.y as int);
                let bx = cam.spec_screen_to_pixel_x(end_pos.x as int);
                let by = cam.spec_screen_to_pixel_y(end_pos.y as int);
                let x1 = if ax <= bx { ax } else { bx };
                let x2 = if ax <= bx { bx } else { ax };
                let y1 = if ay <= by { ay } else { by };
                let y2 = if ay <= by { by } else { ay };
                &&& rect.min.x == cam.spec_pixel_to_screen_x(x1)
                &&& rect.min.y == cam.spec_pixel_to_screen_y(y1)
                &&& rect.max.x == cam.spec_pixel_to_screen_x(x2 + 1)
                &&& rect.max.y == cam.spec_pixel_to_screen_y(y2 + 1)
                &&& rect.color == Color::spec_highlight()
            }),
    {
        let (ax, ay) = self.camera.screen_to_pixel(start_pos);
        let (bx, by) = self.camera.screen_to_pixel(end_pos);
        let x1: i64 = if ax <= bx { ax } else { bx };
        let x2: i64 = if ax <= bx { bx } else { ax };
        let y1: i64 = if ay <= by { ay } else { by };
        let y2: i64 = if ay <= by { by } else { ay };
        let min = self.camera.pixel_to_screen(x1, y1);
        let max = self.camera.pixel_to_screen(x2 + 1, y2 + 1);
        ScreenRect { min, max, color: Color::highlight() }
    }
}
impl Canvas {
    /// The cache blocks of the visible layers from layer `l` up, in layer
    /// order.
    pub open spec fn spec_visible_blocks(self, l: int) -> Seq<Square>
        decreases self.spec_layers() - l,
        when 0 <= l <= self.spec_layers()
    {
        if l >= self.spec_layers() {
            Seq::empty()
        } else {
            (if self.spec_layers_to_show()[l] {
                self.spec_squares().subrange(self.layer_size() * (l + 1),
                    self.layer_size() * (l + 2))
            } else {
                Seq::empty()
            }) + self.spec_visible_blocks(l + 1)
        }
    }

    /// The squares to draw: the checkerboard block followed by the cache
    /// blocks of the visible layers only, in layer order.
    pub fn get_squares_unhidden(&self) -> (r: Vec<Square>)
        requires
            self.wf(),
        ensures
            r@ == self.spec_squares().subrange(0, self.layer_size())
                + self.spec_visible_blocks(0),
    {
        proof {
            self.lemma_offset_bounds(0, 0, 0);
            let lsg = self.layer_size();
            let n = self.layers as int;
            assert(lsg < lsg * (n + 1)) by (nonlinear_arith)
                requires
                    1 <= lsg,
                    1 <= n,
            ;
        }
        let ls = self.width * self.height;
        let mut r: Vec<Square> = Vec::new();
        let mut i: usize = 0;
        while i < ls
            invariant
                self.wf(),
                i <= ls,
                ls == self.layer_size(),
                ls < self.spec_squares().len(),
                r@ == self.spec_squares().subrange(0, i as int),
            decreases ls - i,
        {
            let sq = self.squares[i];
            r.push(sq);
            proof {
                assert(r@ =~= self.spec_squares().subrange(0, i + 1));
            }
            i = i + 1;
        }
        let ghost alpha_block = self.spec_squares().subrange(0, ls as int);
        let mut l: usize = 0;
        while l < self.layers
            invariant
                self.wf(),
                l <= self.layers,
                ls == self.layer_size(),
                alpha_block == self.spec_squares().subrange(0, ls as int),
                alpha_block + self.spec_visible_blocks(0)
                    == r@ + self.spec_visible_blocks(l as int),
            decreases self.layers - l,
        {
            proof {
                self.lemma_offset_bounds(0, 0, l as int);
                let lsg = self.layer_size();
                let li = l as int;
                let n = self.layers as int;
                assert(lsg * (li + 1) + lsg == lsg * (li + 2)
                    && (li + 2 <= n + 1 && 0 <= lsg ==> lsg * (li + 2) <= lsg * (n + 1)))
                    by (nonlinear_arith);
            }
            let ghost r_at_layer = r@;
            if self.layers_to_show[l] {
                let start = ls * (l + 1);
                let mut j: usize = 0;
                while j < ls
                    invariant
                        self.wf(),
                        j <= ls,
                        ls == self.layer_size(),
                        l < self.layers,
                        start == self.layer_size() * (l as int + 1),
                        start + ls <= self.spec_squares().len(),
                        start + ls <= 0x4100_0000,
                        r@ == r_at_layer + self.spec_squares().subrange(start as int,
                            start as int + j),
                    decreases ls - j,
                {
                    let sq = self.squares[start + j];
                    r.push(sq);
                    proof {
                        assert(r@ =~= r_at_layer + self.spec_squares().subrange(
                            start as int, start as int + j + 1));
                    }
                    j = j + 1;
                }
            }
            proof {
                assert(self.spec_visible_blocks(l as int)
                    == (if self.spec_layers_to_show()[l as int] {
                        self.spec_squares().subrange(self.layer_size() * (l as int + 1),
                            self.layer_size() * (l as int + 2))
                    } else {
                        Seq::<Square>::empty()
                    }) + self.spec_visible_blocks(l as int + 1));
                assert(alpha_block + self.spec_visible_blocks(0)
                    =~= r@ + self.spec_visible_blocks(l as int + 1));
            }
            l = l + 1;
        }
        proof {
            assert(self.spec_visible_blocks(self.spec_layers()) =~= Seq::<Square>::empty());
            assert(alpha_block + self.spec_visible_blocks(0) =~= r@);
        }
        r
    }

    /// The topmost color at `(x, y)` among layers `0..=l`, where a fully
    /// transparent pixel lets the layers below show through and the bottom
    /// layer is taken as-is.
    pub open spec fn spec_top_color(self, x: int, y: int, l: int) -> Color
        decreases l,
        when 0 <= l
    {
        if l <= 0 {
            self.pixel_at(x, y, 0)
        } else if self.pixel_at(x, y, l).a != 0 {
            self.pixel_at(x, y, l)
        } else {
            self.spec_top_color(x, y, l - 1)
        }
    }

    /// The composited color the export shows at `(x, y)`.
    pub open spec fn spec_composite(self, x: int, y: int) -> Color {
        self.spec_top_color(x, y, self.spec_layers() - 1)
    }

    /// The flat RGBA8 export buffer, `width * height` quads in row-major
    /// order, each cell composited bottom-to-top by simple overwrite: the
    /// topmost layer with nonzero alpha wins, the bottom layer is written
    /// as-is. Layer visibility flags do not affect the export.
    pub fn get_rgba_buffer(&self) -> (r: Vec<u8>)
        requires
            self.wf(),
        ensures
            r@.len() == self.layer_size() * 4,
            forall|x: int, y: int| 0 <= x < self.spec_width() && 0 <= y < self.spec_height()
                ==> {
                    let base = 4 * self.alpha_index(x, y);
                    let c = #[trigger] self.spec_composite(x, y);
                    &&& r@[base] == c.r
                    &&& r@[base + 1] == c.g
                    &&& r@[base + 2] == c.b
                    &&& r@[base + 3] == c.a
                },
    {
        proof {
            self.lemma_offset_bounds(0, 0, 0);
        }
        let ls = self.width * self.height;
        let mut buf: Vec<u8> = vec![0u8; ls * 4];
        let mut y: usize = 0;
        while y < self.height
            invariant
                self.wf(),
                y <= self.height,
                ls == self.layer_size(),
                ls <= 0x40_0000,
                buf@.len() == ls * 4,
                forall|x2: int, y2: int| 0 <= x2 < self.spec_width() && 0 <= y2 < y
                    ==> {
                        let base = 4 * self.alpha_index(x2, y2);
                        let c = #[trigger] self.spec_composite(x2, y2);
                        &&& buf@[base] == c.r
                        &&& buf@[base + 1] == c.g
                        &&& buf@[base + 2] == c.b
                        &&& buf@[base + 3] == c.a
                    },
            decreases self.height - y,
        {
            let mut x: usize = 0;
            while x < self.width
                invariant
                    self.wf(),
                    y < self.height,
                    x <= self.width,
                    ls == self.layer_size(),
                    ls <= 0x40_0000,
                    buf@.len() == ls * 4,
                    forall|x2: int, y2: int| 0 <= x2 < self.spec_width()
                        && (0 <= y2 < y || (y2 == y && 0 <= x2 < x))
                        ==> {
                            let base = 4 * self.alpha_index(x2, y2);
                            let c = #[trigger] self.spec_composite(x2, y2);
                            &&& buf@[base] == c.r
                            &&& buf@[base + 1] == c.g
                            &&& buf@[base + 2] == c.b
                            &&& buf@[base + 3] == c.a
                        },
                decreases self.width - x,
            {
                let mut l: usize = self.layers - 1;
                let pi = self.pix_offset(x, y, l);
                let mut c = self.pixels[pi];
                while l > 0 && c.a == 0
                    invariant
                        self.wf(),
                        x < self.width,
                        y < self.height,
                        l < self.layers,
                        c == self.pixel_at(x as int, y as int, l as int),
                        self.spec_composite(x as int, y as int)
                            == self.spec_top_color(x as int, y as int, l as int),
                    decreases l,
                {
                    l = l - 1;
                    let pi2 = self.pix_offset(x, y, l);
                    c = self.pixels[pi2];
                }
                proof {
                    assert(c == self.spec_composite(x as int, y as int));
                    self.lemma_offset_bounds(x as int, y as int, 0);
                    self.lemma_pix_index(x as int, y as int, 0);
                }
                let base = 4 * (x + y * self.width);
                let ghost buf0 = buf@;
                buf.set(base, c.r);
                buf.set(base + 1, c.g);
                buf.set(base + 2, c.b);
                buf.set(base + 3, c.a);
                proof {
                    assert forall|x2: int, y2: int| 0 <= x2 < self.spec_width()
                        && (0 <= y2 < y || (y2 == y && 0 <= x2 < x + 1))
                        implies {
                            let base2 = 4 * self.alpha_index(x2, y2);
                            let c2 = #[trigger] self.spec_composite(x2, y2);
                            &&& buf@[base2] == c2.r
                            &&& buf@[base2 + 1] == c2.g
                            &&& buf@[base2 + 2] == c2.b
                            &&& buf@[base2 + 3] == c2.a
                        } by {
                        self.lemma_pix_index(x2, y2, 0);
                        if x2 != x as int || y2 != y as int {
                            assert(self.pix_index(x2, y2, 0)
                                != self.pix_index(x as int, y as int, 0));
                            assert(self.alpha_index(x2, y2)
                                != self.alpha_index(x as int, y as int));
                        }
                    }
                }
                x = x + 1;
            }
            y = y + 1;
        }
        buf
    }
}

} // verus!
