use vstd::prelude::*;
use crate::canvas::{Canvas, CanvasError};
use crate::camera::{ScreenPos, SCREEN_LIMIT};
use crate::color::Color;

verus! {

/// Whether two grid cells are 4-connected neighbors.
pub open spec fn spec_adjacent(x: int, y: int, x2: int, y2: int) -> bool {
    ||| x2 == x + 1 && y2 == y
    ||| x2 == x - 1 && y2 == y
    ||| x2 == x && y2 == y + 1
    ||| x2 == x && y2 == y - 1
}

/// The `j`-th 4-connected neighbor of `(x, y)`, in the order the fill
/// visits them.
pub open spec fn spec_nbr(x: int, y: int, j: int) -> (int, int) {
    if j == 0 {
        (x + 1, y)
    } else if j == 1 {
        (x - 1, y)
    } else if j == 2 {
        (x, y + 1)
    } else {
        (x, y - 1)
    }
}

/// Whether `(a, b)` sits on the fill work list.
pub open spec fn on_stack(stk: Seq<(usize, usize)>, a: int, b: int) -> bool {
    exists|i: int| 0 <= i < stk.len() && stk[i] == (a as usize, b as usize)
}

/// Whether a neighbor `(x2, y2)` of `(x, y)` is still to be visited at step
/// `k` of the four-neighbor walk.
pub open spec fn nbr_pending(x: int, y: int, k: int, x2: int, y2: int) -> bool {
    exists|j: int| k <= j < 4 && spec_nbr(x, y, j) == (x2, y2)
}

/// Whether `path` is a chain of valid, target-colored, 4-connected cells of
/// the active layer (colors read in the pre-fill grid `pre`).
pub open spec fn is_target_path(pre: Canvas, target: Color, path: Seq<(int, int)>) -> bool {
    let l = pre.spec_active_layer();
    &&& path.len() >= 1
    &&& forall|i: int| 0 <= i < path.len()
        ==> pre.valid_pixel(#[trigger] path[i].0, path[i].1, l)
            && pre.pixel_at(path[i].0, path[i].1, l) == target
    &&& forall|i: int| 0 <= i < path.len() - 1
        ==> spec_adjacent(#[trigger] path[i].0, path[i].1, path[i + 1].0, path[i + 1].1)
}

/// Whether `(x, y)` belongs to the 4-connected target-colored region around
/// `(sx, sy)` in the pre-fill grid.
pub open spec fn spec_connected(pre: Canvas, target: Color, sx: int, sy: int,
    x: int, y: int) -> bool {
    exists|path: Seq<(int, int)>|
        is_target_path(pre, target, path) && path[0] == (sx, sy) && path.last() == (x, y)
}

/// How many entries of `s` equal `c`.
pub open spec fn count_eq(s: Seq<Color>, c: Color) -> int
    decreases s.len(),
{
    if s.len() == 0 {
        0
    } else {
        count_eq(s.drop_last(), c) + if s.last() == c { 1int } else { 0int }
    }
}

pub proof fn lemma_count_eq_nonneg(s: Seq<Color>, c: Color)
    ensures
        0 <= count_eq(s, c),
    decreases s.len(),
{
    if s.len() > 0 {
        lemma_count_eq_nonneg(s.drop_last(), c);
    }
}

/// Overwriting an entry that equals `c` with a different color lowers the
/// count of `c` by one.
pub proof fn lemma_count_eq_update(s: Seq<Color>, i: int, v: Color, c: Color)
    requires
        0 <= i < s.len(),
        s[i] == c,
        v != c,
    ensures
        count_eq(s.update(i, v), c) == count_eq(s, c) - 1,
    decreases s.len(),
{
    let t = s.update(i, v);
    if i == s.len() - 1 {
        assert(t.drop_last() =~= s.drop_last());
    } else {
        assert(t.drop_last() =~= s.drop_last().update(i, v));
        lemma_count_eq_update(s.drop_last(), i, v, c);
    }
}

impl Canvas {
    /// Whether the flood fill recolored cell `(x, y)` of the active layer:
    /// it held the target color before and the fill color after. Meaningful
    /// only when the two colors differ.
    pub open spec fn spec_cell_changed(pre: Canvas, post: Canvas, x: int, y: int,
        target: Color, fillc: Color) -> bool {
        let l = pre.spec_active_layer();
        pre.pixel_at(x, y, l) == target && post.pixel_at(x, y, l) == fillc
    }

    /// The full effect of a flood fill seeded at `(sx, sy)` with
    /// `target != fillc`: only target-colored cells of the active layer turn
    /// into the fill color, their cache entries are recolored with them, the
    /// seed is recolored when it held the target color (and nothing at all
    /// happens when it did not), the recolored region is closed under
    /// 4-connected target-colored neighbors, and every recolored cell is
    /// connected to the seed through target-colored cells — together, the
    /// recolored cells are exactly the connected target-colored region around
    /// the seed.
    pub open spec fn spec_flood_filled(pre: Canvas, post: Canvas, sx: int, sy: int,
        target: Color, fillc: Color) -> bool {
        let l = pre.spec_active_layer();
        &&& post == (Canvas { pixels: post.pixels, squares: post.squares, ..pre })
        &&& post.spec_pixels().len() == pre.spec_pixels().len()
        &&& post.spec_squares().len() == pre.spec_squares().len()
        &&& forall|x: int, y: int| pre.valid_pixel(x, y, l)
            ==> post.pixel_at(x, y, l) == pre.pixel_at(x, y, l)
                || Self::spec_cell_changed(pre, post, x, y, target, fillc)
        &&& forall|x: int, y: int| pre.valid_pixel(x, y, l)
            ==> post.square_at(x, y, l)
                == if Self::spec_cell_changed(pre, post, x, y, target, fillc) {
                    pre.square_at(x, y, l).spec_recolored(fillc)
                } else { pre.square_at(x, y, l) }
        &&& (pre.valid_pixel(sx, sy, l) && pre.pixel_at(sx, sy, l) == target
            ==> Self::spec_cell_changed(pre, post, sx, sy, target, fillc))
        &&& (pre.valid_pixel(sx, sy, l) && pre.pixel_at(sx, sy, l) != target
            ==> post == pre)
        &&& forall|x: int, y: int, x2: int, y2: int|
            #![trigger Self::spec_cell_changed(pre, post, x, y, target, fillc),
                pre.pixel_at(x2, y2, l)]
            pre.valid_pixel(x, y, l)
                && Self::spec_cell_changed(pre, post, x, y, target, fillc)
                && pre.valid_pixel(x2, y2, l) && spec_adjacent(x, y, x2, y2)
                && pre.pixel_at(x2, y2, l) == target
                ==> Self::spec_cell_changed(pre, post, x2, y2, target, fillc)
        &&& forall|x: int, y: int| pre.valid_pixel(x, y, l)
                && #[trigger] Self::spec_cell_changed(pre, post, x, y, target, fillc)
            ==> spec_connected(pre, target, sx, sy, x, y)
        &&& forall|x: int, y: int, l2: int| pre.valid_pixel(x, y, l2)
                && l2 != l
            ==> post.pixel_at(x, y, l2) == pre.pixel_at(x, y, l2)
                && post.square_at(x, y, l2) == pre.square_at(x, y, l2)
        &&& forall|i: int| 0 <= i < pre.layer_size()
            ==> post.spec_squares()[i] == pre.spec_squares()[i]
    }

    /// Writes `color` to the valid cell `(x, y)` of the active layer and
    /// recolors its cache entry, stated pointwise over all cells.
    fn paint_cell(&mut self, x: usize, y: usize, color: Color)
        requires
            old(self).wf(),
            old(self).valid_pixel(x as int, y as int, old(self).spec_active_layer()),
        ensures
            final(self).wf(),
            *final(self) == (Canvas {
                pixels: final(self).pixels,
                squares: final(self).squares,
                ..*old(self)
            }),
            final(self).spec_pixels().len() == old(self).spec_pixels().len(),
            final(self).spec_squares().len() == old(self).spec_squares().len(),
            forall|x2: int, y2: int, l2: int| old(self).valid_pixel(x2, y2, l2)
                ==> final(self).pixel_at(x2, y2, l2)
                    == if x2 == x as int && y2 == y as int
                        && l2 == old(self).spec_active_layer() {
                        color
                    } else { old(self).pixel_at(x2, y2, l2) },
            forall|x2: int, y2: int, l2: int| old(self).valid_pixel(x2, y2, l2)
                ==> final(self).square_at(x2, y2, l2)
                    == if x2 == x as int && y2 == y as int
                        && l2 == old(self).spec_active_layer() {
                        old(self).square_at(x2, y2, l2).spec_recolored(color)
                    } else { old(self).square_at(x2, y2, l2) },
            forall|i: int| 0 <= i < old(self).layer_size()
                ==> final(self).spec_squares()[i] == old(self).spec_squares()[i],
            final(self).spec_pixels() == old(self).spec_pixels().update(
                old(self).pix_index(x as int, y as int, old(self).spec_active_layer()), color),
    {
        let _ = self.set_pixel_from_pixel_coords((x, y), color);
        proof {
            let l = old(self).spec_active_layer();
            old(self).lemma_pix_index(x as int, y as int, l);
            old(self).lemma_sq_index(x as int, y as int, l);
            assert forall|x2: int, y2: int, l2: int| old(self).valid_pixel(x2, y2, l2)
                implies final(self).pixel_at(x2, y2, l2)
                    == if x2 == x as int && y2 == y as int && l2 == l {
                        color
                    } else { old(self).pixel_at(x2, y2, l2) } by {
                old(self).lemma_pix_index(x2, y2, l2);
            }
            assert forall|x2: int, y2: int, l2: int| old(self).valid_pixel(x2, y2, l2)
                implies final(self).square_at(x2, y2, l2)
                    == if x2 == x as int && y2 == y as int && l2 == l {
                        old(self).square_at(x2, y2, l2).spec_recolored(color)
                    } else { old(self).square_at(x2, y2, l2) } by {
                old(self).lemma_sq_index(x2, y2, l2);
            }
        }
    }

    /// Classic 4-connected flood fill on the active layer, with an explicit
    /// work list instead of native recursion so that large regions cannot
    /// overflow the call stack. A seed that does not hold the target color
    /// leaves the canvas untouched.
    fn flood_fill(&mut self, sx: usize, sy: usize, target: Color, fill_color: Color)
        requires
            old(self).wf(),
            old(self).valid_pixel(sx as int, sy as int, old(self).spec_active_layer()),
            target != fill_color,
        ensures
            final(self).wf(),
            Self::spec_flood_filled(*old(self), *final(self), sx as int, sy as int,
                target, fill_color),
    {
        let ghost pre = *self;
        let ghost l = self.spec_active_layer();
        let active = self.get_active_layer();
        let start = self.pix_offset(sx, sy, active);
        if !color_eq(&self.pixels[start], &target) {
            return;
        }
        self.paint_cell(sx, sy, fill_color);
        let mut stack: Vec<(usize, usize)> = Vec::new();
        stack.push((sx, sy));
        proof {
            lemma_count_eq_nonneg(self.spec_pixels(), target);
            assert(stack@[0] == (sx, sy));
            let seed_path = seq![(sx as int, sy as int)];
            assert(seed_path.len() == 1);
            assert(seed_path[0] == (sx as int, sy as int));
            assert(seed_path.last() == (sx as int, sy as int));
            assert(is_target_path(pre, target, seed_path));
            assert(spec_connected(pre, target, sx as int, sy as int,
                sx as int, sy as int));
            assert forall|a: int, b: int| pre.valid_pixel(a, b, l)
                && #[trigger] Self::spec_cell_changed(pre, *self, a, b, target, fill_color)
                implies spec_connected(pre, target, sx as int, sy as int, a, b) by {
                assert(a == sx as int && b == sy as int);
            }
            assert forall|x: int, y: int, x2: int, y2: int|
                #![trigger Self::spec_cell_changed(pre, *self, x, y, target, fill_color),
                    pre.pixel_at(x2, y2, l)]
                pre.valid_pixel(x, y, l)
                    && Self::spec_cell_changed(pre, *self, x, y, target, fill_color)
                    && pre.valid_pixel(x2, y2, l) && spec_adjacent(x, y, x2, y2)
                    && pre.pixel_at(x2, y2, l) == target
                implies Self::spec_cell_changed(pre, *self, x2, y2, target, fill_color)
                    || on_stack(stack@, x, y) by {
                assert(x == sx as int && y == sy as int);
                assert(stack@[0] == (x as usize, y as usize));
            }
        }
        while stack.len() > 0
            invariant
                self.wf(),
                pre.wf(),
                target != fill_color,
                l == pre.spec_active_layer(),
                *self == (Canvas { pixels: self.pixels, squares: self.squares, ..pre }),
                self.spec_pixels().len() == pre.spec_pixels().len(),
                self.spec_squares().len() == pre.spec_squares().len(),
                pre.valid_pixel(sx as int, sy as int, l),
                Self::spec_cell_changed(pre, *self, sx as int, sy as int, target, fill_color),
                forall|x: int, y: int| pre.valid_pixel(x, y, l)
                    ==> self.pixel_at(x, y, l) == pre.pixel_at(x, y, l)
                        || Self::spec_cell_changed(pre, *self, x, y, target, fill_color),
                forall|x: int, y: int| pre.valid_pixel(x, y, l)
                    ==> self.square_at(x, y, l)
                        == if Self::spec_cell_changed(pre, *self, x, y, target, fill_color) {
                            pre.square_at(x, y, l).spec_recolored(fill_color)
                        } else { pre.square_at(x, y, l) },
                forall|i: int| 0 <= i < stack@.len()
                    ==> pre.valid_pixel(#[trigger] stack@[i].0 as int, stack@[i].1 as int, l)
                        && Self::spec_cell_changed(pre, *self, stack@[i].0 as int,
                            stack@[i].1 as int, target, fill_color),
                forall|x: int, y: int, x2: int, y2: int|
                    #![trigger Self::spec_cell_changed(pre, *self, x, y, target, fill_color),
                        pre.pixel_at(x2, y2, l)]
                    pre.valid_pixel(x, y, l)
                        && Self::spec_cell_changed(pre, *self, x, y, target,
                            fill_color)
                        && pre.valid_pixel(x2, y2, l) && spec_adjacent(x, y, x2, y2)
                        && pre.pixel_at(x2, y2, l) == target
                        ==> Self::spec_cell_changed(pre, *self, x2, y2, target, fill_color)
                            || on_stack(stack@, x, y),
                forall|x: int, y: int| pre.valid_pixel(x, y, l)
                    && #[trigger] Self::spec_cell_changed(pre, *self, x, y, target,
                        fill_color)
                    ==> spec_connected(pre, target, sx as int, sy as int, x, y),
                forall|x: int, y: int, l2: int| pre.valid_pixel(x, y, l2) && l2 != l
                    ==> self.pixel_at(x, y, l2) == pre.pixel_at(x, y, l2)
                        && self.square_at(x, y, l2) == pre.square_at(x, y, l2),
                forall|i: int| 0 <= i < pre.layer_size()
                    ==> self.spec_squares()[i] == pre.spec_squares()[i],
                0 <= count_eq(self.spec_pixels(), target),
            decreases count_eq(self.spec_pixels(), target), stack@.len(),
        {
            let ghost count0 = count_eq(self.spec_pixels(), target);
            let ghost stack0 = stack@;
            let (x, y) = stack.pop().unwrap();
            let ghost mut recolored_any = false;
            proof {
                assert forall|a: int, b: int, x2: int, y2: int|
                    #![trigger Self::spec_cell_changed(pre, *self, a, b, target,
                        fill_color), pre.pixel_at(x2, y2, l)]
                    pre.valid_pixel(a, b, l)
                        && Self::spec_cell_changed(pre, *self, a, b, target, fill_color)
                        && pre.valid_pixel(x2, y2, l) && spec_adjacent(a, b, x2, y2)
                        && pre.pixel_at(x2, y2, l) == target
                    implies Self::spec_cell_changed(pre, *self, x2, y2, target, fill_color)
                        || on_stack(stack@, a, b)
                        || (a == x as int && b == y as int
                            && nbr_pending(x as int, y as int, 0, x2, y2)) by {
                    if !Self::spec_cell_changed(pre, *self, x2, y2, target, fill_color)
                        && !on_stack(stack@, a, b) {
                        assert(on_stack(stack0, a, b));
                        let i = choose|i: int| 0 <= i < stack0.len()
                            && stack0[i] == (a as usize, b as usize);
                        if i < stack0.len() - 1 {
                            assert(stack@[i] == (a as usize, b as usize));
                            assert(on_stack(stack@, a, b));
                            assert(false);
                        } else {
                            assert(a == x as int && b == y as int);
                            if x2 == a + 1 && y2 == b {
                                assert(spec_nbr(x as int, y as int, 0) == (x2, y2));
                            } else if x2 == a - 1 && y2 == b {
                                assert(spec_nbr(x as int, y as int, 1) == (x2, y2));
                            } else if x2 == a && y2 == b + 1 {
                                assert(spec_nbr(x as int, y as int, 2) == (x2, y2));
                            } else {
                                assert(spec_nbr(x as int, y as int, 3) == (x2, y2));
                            }
                            assert(nbr_pending(x as int, y as int, 0, x2, y2));
                        }
                    }
                }
            }
            let mut k: usize = 0;
            while k < 4
                invariant
                    self.wf(),
                    pre.wf(),
                    target != fill_color,
                    l == pre.spec_active_layer(),
                    *self == (Canvas { pixels: self.pixels, squares: self.squares, ..pre }),
                    self.spec_pixels().len() == pre.spec_pixels().len(),
                    self.spec_squares().len() == pre.spec_squares().len(),
                    pre.valid_pixel(sx as int, sy as int, l),
                    pre.valid_pixel(x as int, y as int, l),
                    k <= 4,
                    stack0.len() >= 1,
                    (x, y) == stack0.last(),
                    Self::spec_cell_changed(pre, *self, sx as int, sy as int, target,
                        fill_color),
                    Self::spec_cell_changed(pre, *self, x as int, y as int, target,
                        fill_color),
                    forall|x2: int, y2: int| pre.valid_pixel(x2, y2, l)
                        ==> self.pixel_at(x2, y2, l) == pre.pixel_at(x2, y2, l)
                            || Self::spec_cell_changed(pre, *self, x2, y2, target, fill_color),
                    forall|x2: int, y2: int| pre.valid_pixel(x2, y2, l)
                        ==> self.square_at(x2, y2, l)
                            == if Self::spec_cell_changed(pre, *self, x2, y2, target,
                                fill_color) {
                                pre.square_at(x2, y2, l).spec_recolored(fill_color)
                            } else { pre.square_at(x2, y2, l) },
                    forall|i: int| 0 <= i < stack@.len()
                        ==> pre.valid_pixel(#[trigger] stack@[i].0 as int,
                                stack@[i].1 as int, l)
                            && Self::spec_cell_changed(pre, *self, stack@[i].0 as int,
                                stack@[i].1 as int, target, fill_color),
                    forall|a: int, b: int, x2: int, y2: int|
                        #![trigger Self::spec_cell_changed(pre, *self, a, b, target,
                            fill_color), pre.pixel_at(x2, y2, l)]
                        pre.valid_pixel(a, b, l)
                            && Self::spec_cell_changed(pre, *self, a, b, target,
                                fill_color)
                            && pre.valid_pixel(x2, y2, l) && spec_adjacent(a, b, x2, y2)
                            && pre.pixel_at(x2, y2, l) == target
                            ==> Self::spec_cell_changed(pre, *self, x2, y2, target,
                                    fill_color)
                                || on_stack(stack@, a, b)
                                || (a == x as int && b == y as int
                                    && nbr_pending(x as int, y as int, k as int, x2, y2)),
                    forall|x2: int, y2: int| pre.valid_pixel(x2, y2, l)
                        && #[trigger] Self::spec_cell_changed(pre, *self, x2, y2, target,
                            fill_color)
                        ==> spec_connected(pre, target, sx as int, sy as int, x2, y2),
                    forall|x2: int, y2: int, l2: int| pre.valid_pixel(x2, y2, l2) && l2 != l
                        ==> self.pixel_at(x2, y2, l2) == pre.pixel_at(x2, y2, l2)
                            && self.square_at(x2, y2, l2) == pre.square_at(x2, y2, l2),
                    forall|i: int| 0 <= i < pre.layer_size()
                        ==> self.spec_squares()[i] == pre.spec_squares()[i],
                    count_eq(self.spec_pixels(), target) <= count0,
                    recolored_any <==> count_eq(self.spec_pixels(), target) < count0,
                    recolored_any ==> stack@.len() >= stack0.len() - 1,
                    !recolored_any ==> stack@ == stack0.drop_last(),
                    0 <= count_eq(self.spec_pixels(), target),
                decreases 4 - k,
            {
                let ghost it_head = *self;
                let ghost it_stack = stack@;
                let ghost mut painted_nbr = false;
                let (nx, ny): (i64, i64) = if k == 0 {
                    (x as i64 + 1, y as i64)
                } else if k == 1 {
                    (x as i64 - 1, y as i64)
                } else if k == 2 {
                    (x as i64, y as i64 + 1)
                } else {
                    (x as i64, y as i64 - 1)
                };
                proof {
                    assert(spec_nbr(x as int, y as int, k as int) == (nx as int, ny as int));
                }
                if nx >= 0 && ny >= 0 && nx < self.width as i64 && ny < self.height as i64 {
                    let active = self.get_active_layer();
                    let ni = self.pix_offset(nx as usize, ny as usize, active);
                    if color_eq(&self.pixels[ni], &target) {
                        let ghost before = *self;
                        proof {
                            before.lemma_pix_index(nx as int, ny as int, l);
                        }
                        self.paint_cell(nx as usize, ny as usize, fill_color);
                        stack.push((nx as usize, ny as usize));
                        proof {
                            lemma_count_eq_update(before.spec_pixels(),
                                before.pix_index(nx as int, ny as int, l), fill_color,
                                target);
                            lemma_count_eq_nonneg(self.spec_pixels(), target);
                            recolored_any = true;
                            painted_nbr = true;
                            assert(stack@[stack@.len() - 1]
                                == (nx as usize, ny as usize));
                            assert(pre.pixel_at(nx as int, ny as int, l) == target);
                            assert(Self::spec_cell_changed(pre, before, x as int, y as int,
                                target, fill_color));
                            let p = choose|p: Seq<(int, int)>|
                                is_target_path(pre, target, p)
                                && p[0] == (sx as int, sy as int)
                                && p.last() == (x as int, y as int);
                            let p2 = p.push((nx as int, ny as int));
                            assert forall|i: int| 0 <= i < p2.len()
                                implies pre.valid_pixel(#[trigger] p2[i].0, p2[i].1, l)
                                    && pre.pixel_at(p2[i].0, p2[i].1, l) == target by {
                                if i < p.len() {
                                    assert(p2[i] == p[i]);
                                } else {
                                    assert(p2[i] == (nx as int, ny as int));
                                }
                            }
                            assert forall|i: int| 0 <= i < p2.len() - 1
                                implies spec_adjacent(#[trigger] p2[i].0, p2[i].1,
                                    p2[i + 1].0, p2[i + 1].1) by {
                                if i < p.len() - 1 {
                                    assert(p2[i] == p[i] && p2[i + 1] == p[i + 1]);
                                } else {
                                    assert(p2[i] == p.last()
                                        && p2[i + 1] == (nx as int, ny as int));
                                    assert(spec_adjacent(x as int, y as int,
                                        nx as int, ny as int));
                                }
                            }
                            assert(is_target_path(pre, target, p2));
                            assert(p2[0] == (sx as int, sy as int)
                                && p2.last() == (nx as int, ny as int));
                            assert(spec_connected(pre, target, sx as int, sy as int,
                                nx as int, ny as int));
                            assert forall|a: int, b: int| pre.valid_pixel(a, b, l)
                                && #[trigger] Self::spec_cell_changed(pre, *self, a, b,
                                    target, fill_color)
                                implies spec_connected(pre, target, sx as int, sy as int,
                                    a, b) by {
                                if a != nx as int || b != ny as int {
                                    assert(Self::spec_cell_changed(pre, before, a, b,
                                        target, fill_color));
                                }
                            }
                        }
                    }
                }
                proof {
                    // the k-th neighbor is settled: recolored now if it ever
                    // held the target color
                    assert(pre.valid_pixel(nx as int, ny as int, l)
                        && pre.pixel_at(nx as int, ny as int, l) == target
                        ==> Self::spec_cell_changed(pre, *self, nx as int, ny as int,
                            target, fill_color));
                    assert forall|a: int, b: int, x2: int, y2: int|
                        #![trigger Self::spec_cell_changed(pre, *self, a, b, target,
                            fill_color), pre.pixel_at(x2, y2, l)]
                        pre.valid_pixel(a, b, l)
                            && Self::spec_cell_changed(pre, *self, a, b, target, fill_color)
                            && pre.valid_pixel(x2, y2, l) && spec_adjacent(a, b, x2, y2)
                            && pre.pixel_at(x2, y2, l) == target
                        implies Self::spec_cell_changed(pre, *self, x2, y2, target,
                                fill_color)
                            || on_stack(stack@, a, b)
                            || (a == x as int && b == y as int
                                && nbr_pending(x as int, y as int, k as int + 1, x2, y2)) by {
                      if !Self::spec_cell_changed(pre, *self, x2, y2, target, fill_color)
                        && !on_stack(stack@, a, b) {
                        assert(Self::spec_cell_changed(pre, it_head, a, b, target,
                            fill_color)) by {
                            if !Self::spec_cell_changed(pre, it_head, a, b, target,
                                fill_color) {
                                assert(painted_nbr && a == nx as int && b == ny as int);
                                assert(stack@[stack@.len() - 1]
                                    == (a as usize, b as usize));
                                assert(on_stack(stack@, a, b));
                                assert(false);
                            }
                        }
                        assert(!Self::spec_cell_changed(pre, it_head, x2, y2, target,
                            fill_color)) by {
                            if Self::spec_cell_changed(pre, it_head, x2, y2, target,
                                fill_color) {
                                assert(Self::spec_cell_changed(pre, *self, x2, y2, target,
                                    fill_color));
                                assert(false);
                            }
                        }
                        assert(!on_stack(it_stack, a, b)) by {
                            if on_stack(it_stack, a, b) {
                                let i = choose|i: int| 0 <= i < it_stack.len()
                                    && it_stack[i] == (a as usize, b as usize);
                                assert(stack@[i] == it_stack[i]);
                                assert(on_stack(stack@, a, b));
                                assert(false);
                            }
                        }
                        assert(a == x as int && b == y as int
                            && nbr_pending(x as int, y as int, k as int, x2, y2));
                        let j = choose|j: int| k as int <= j < 4
                            && spec_nbr(x as int, y as int, j) == (x2, y2);
                        if j == k as int {
                            assert(x2 == nx as int && y2 == ny as int);
                            assert(false);
                        } else {
                            assert(k as int + 1 <= j < 4
                                && spec_nbr(x as int, y as int, j) == (x2, y2));
                            assert(nbr_pending(x as int, y as int, k as int + 1, x2, y2));
                        }
                      }
                    }
                }
                k += 1;
            }
        }
    }

    /// Flood fill from the pixel under the screen position `screen_coord`:
    /// recolors the 4-connected region of `target_color` cells around it with
    /// `fill_color` on the active layer. Asking to fill a color with itself
    /// fails with `SameColor`, a position off the grid with `OffCanvas`; both
    /// leave the canvas unmodified.
    pub fn fill(&mut self, screen_coord: ScreenPos, target_color: Color, fill_color: Color)
        -> (r: Result<(), CanvasError>)
        requires
            old(self).wf(),
            -SCREEN_LIMIT <= screen_coord.x <= SCREEN_LIMIT,
            -SCREEN_LIMIT <= screen_coord.y <= SCREEN_LIMIT,
        ensures
            final(self).wf(),
            ({
                let cam = old(self).spec_camera();
                let sx = cam.spec_screen_to_pixel_x(screen_coord.x as int);
                let sy = cam.spec_screen_to_pixel_y(screen_coord.y as int);
                let l = old(self).spec_active_layer();
                if target_color == fill_color {
                    &&& r == Err::<(), CanvasError>(CanvasError::SameColor)
                    &&& *final(self) == *old(self)
                } else if !old(self).valid_pixel(sx, sy, l) {
                    &&& r == Err::<(), CanvasError>(CanvasError::OffCanvas)
                    &&& *final(self) == *old(self)
                } else {
                    &&& r == Ok::<(), CanvasError>(())
                    &&& Self::spec_flood_filled(*old(self), *final(self), sx, sy,
                        target_color, fill_color)
                }
            }),
    {
        if color_eq(&target_color, &fill_color) {
            return Err(CanvasError::SameColor);
        }
        let (px, py) = self.camera.screen_to_pixel(screen_coord);
        if px < 0 || py < 0 || px >= self.width as i64 || py >= self.height as i64 {
            return Err(CanvasError::OffCanvas);
        }
        self.flood_fill(px as usize, py as usize, target_color, fill_color);
        Ok(())
    }
}

/// Executable color comparison, reflected to spec equality.
pub fn color_eq(a: &Color, b: &Color) -> (r: bool)
    ensures
        r == (a == b),
{
    a.r == b.r && a.g == b.g && a.b == b.b && a.a == b.a
}
impl Canvas {
    /// A flood fill reaches everything connected to its seed: along any path
    /// of valid, target-colored, 4-connected cells that starts at the seed,
    /// every cell ends up recolored. Together with the clauses of
    /// `spec_flood_filled` — only target-colored cells change, and a changed
    /// cell's target-colored neighbors change too — the recolored cells are
    /// exactly the connected target-colored region around the seed, and a
    /// border of any other color is never touched.
    pub proof fn lemma_flood_fill_reaches(pre: Canvas, post: Canvas, sx: int, sy: int,
        target: Color, fillc: Color, path: Seq<(int, int)>)
        requires
            pre.wf(),
            target != fillc,
            Canvas::spec_flood_filled(pre, post, sx, sy, target, fillc),
            pre.valid_pixel(sx, sy, pre.spec_active_layer()),
            path.len() >= 1,
            path[0] == (sx, sy),
            forall|i: int| 0 <= i < path.len()
                ==> pre.valid_pixel(#[trigger] path[i].0, path[i].1,
                        pre.spec_active_layer())
                    && pre.pixel_at(path[i].0, path[i].1, pre.spec_active_layer())
                        == target,
            forall|i: int| 0 <= i < path.len() - 1
                ==> spec_adjacent(#[trigger] path[i].0, path[i].1,
                    path[i + 1].0, path[i + 1].1),
        ensures
            forall|i: int| 0 <= i < path.len()
                ==> post.pixel_at(#[trigger] path[i].0, path[i].1,
                    pre.spec_active_layer()) == fillc,
        decreases path.len(),
    {
        let l = pre.spec_active_layer();
        assert(pre.valid_pixel(path[0].0, path[0].1, l)
            && pre.pixel_at(path[0].0, path[0].1, l) == target);
        if path.len() == 1 {
            assert(Self::spec_cell_changed(pre, post, sx, sy, target, fillc));
        } else {
            let front = path.drop_last();
            let n = path.len() - 1;
            assert(front.len() == n);
            assert forall|i: int| 0 <= i < front.len()
                implies pre.valid_pixel(#[trigger] front[i].0, front[i].1, l)
                    && pre.pixel_at(front[i].0, front[i].1, l) == target by {
                assert(front[i] == path[i]);
            }
            assert forall|i: int| 0 <= i < front.len() - 1
                implies spec_adjacent(#[trigger] front[i].0, front[i].1,
                    front[i + 1].0, front[i + 1].1) by {
                assert(front[i] == path[i] && front[i + 1] == path[i + 1]);
            }
            Self::lemma_flood_fill_reaches(pre, post, sx, sy, target, fillc, front);
            let last = path[n];
            let prev = path[n - 1];
            assert(front[n - 1] == prev);
            assert(post.pixel_at(prev.0, prev.1, l) == fillc);
            assert(Self::spec_cell_changed(pre, post, prev.0, prev.1, target, fillc));
            assert(spec_adjacent(prev.0, prev.1, last.0, last.1));
            assert(Self::spec_cell_changed(pre, post, last.0, last.1, target, fillc));
            assert forall|i: int| 0 <= i < path.len()
                implies post.pixel_at(#[trigger] path[i].0, path[i].1, l) == fillc by {
                if i < n {
                    assert(front[i] == path[i]);
                    assert(post.pixel_at(front[i].0, front[i].1, l) == fillc);
                }
            }
        }
    }
}

} // verus!
