//! The dynamic coordinate system: domain bounds, the domain-to-screen
//! mapping, and the derived tick-label layout.
//!
//! The bounds window only ever grows: feeding a point widens `max` and
//! lowers `min` with a margin of one x step (half a y step), and never
//! tightens them again.  The window starts as a half-step box around zero,
//! so `min < 0 < max` holds on both axes at all times and the affine
//! domain-to-screen map is always defined.

use vstd::prelude::*;
use crate::fixed::{COORD_LIMIT, STEP_LIMIT, BOUND_LIMIT, format_fixed2, format_fixed2_spec};
use crate::render::{Point, ScreenCoord, ScreenPt, Label, LabelModel, labels_view, whole_coord, Color, DrawCmd, DrawCmdModel, cmds_view};

verus! {

/// Whether a single coordinate is within the supported data range.
pub open spec fn in_range(v: int) -> bool {
    -COORD_LIMIT <= v <= COORD_LIMIT
}

/// Whether a domain point is within the supported data range.
pub open spec fn point_in_range(p: Point) -> bool {
    in_range(p.x as int) && in_range(p.y as int)
}

pub struct Grid {
    pub width: i64,
    pub height: i64,
    pub x_step: i64,
    pub y_step: i64,
    pub min: Point,
    pub max: Point,
    pub texts: Vec<Label>,
}

/// The upper bound after one point is taken in: `max.x` grows to a full
/// step beyond the point when strictly exceeded, `max.y` to half a step
/// beyond when reached or exceeded.
pub open spec fn upd_max_spec(max: Point, p: Point, xs: int, ys: int) -> Point {
    Point {
        x: if max.x < p.x + xs { (p.x + xs) as i64 } else { max.x },
        y: if max.y <= p.y + ys / 2 { (p.y + ys / 2) as i64 } else { max.y },
    }
}

/// The lower bound after one point is taken in, mirroring `upd_max_spec`.
pub open spec fn upd_min_spec(min: Point, p: Point, xs: int, ys: int) -> Point {
    Point {
        x: if min.x >= p.x - xs { (p.x - xs) as i64 } else { min.x },
        y: if min.y >= p.y - ys / 2 { (p.y - ys / 2) as i64 } else { min.y },
    }
}

/// The horizontal screen coordinate of domain coordinate `x`: the affine
/// map `(x - min) / (max - min) * width`, kept as an exact rational.
pub open spec fn screen_x_spec(g: Grid, x: int) -> ScreenCoord {
    ScreenCoord {
        num: ((x - g.min.x) * g.width) as i64,
        den: (g.max.x - g.min.x) as i64,
    }
}

/// The vertical screen coordinate of domain coordinate `y`.
pub open spec fn screen_y_spec(g: Grid, y: int) -> ScreenCoord {
    ScreenCoord {
        num: ((y - g.min.y) * g.height) as i64,
        den: (g.max.y - g.min.y) as i64,
    }
}

/// The screen position of a domain point.
pub open spec fn to_screen_spec(g: Grid, p: Point) -> ScreenPt {
    ScreenPt { x: screen_x_spec(g, p.x as int), y: screen_y_spec(g, p.y as int) }
}

/// The whole effect of feeding one point to `update_bounds`: the bounds
/// move exactly as `upd_min_spec` / `upd_max_spec` say and every other
/// field stays put.
pub open spec fn bounds_updated(pre: Grid, post: Grid, p: Point) -> bool {
    &&& post.max == upd_max_spec(pre.max, p, pre.x_step as int, pre.y_step as int)
    &&& post.min == upd_min_spec(pre.min, p, pre.x_step as int, pre.y_step as int)
    &&& post.width == pre.width
    &&& post.height == pre.height
    &&& post.x_step == pre.x_step
    &&& post.y_step == pre.y_step
    &&& post.texts == pre.texts
}

/// The inverse affine map: a screen coordinate pair produced with the same
/// bounds is taken back to the domain point it came from.
pub open spec fn from_screen_spec(g: Grid, sx: ScreenCoord, sy: ScreenCoord) -> Point {
    Point {
        x: (sx.num as int / g.width as int + g.min.x) as i64,
        y: (sy.num as int / g.height as int + g.min.y) as i64,
    }
}

impl Grid {
    /// Well-formedness: positive steps and canvas, and a bounds window that
    /// straddles zero on both axes without leaving the supported range.
    pub open spec fn wf(&self) -> bool {
        &&& 2 <= self.x_step <= STEP_LIMIT
        &&& 2 <= self.y_step <= STEP_LIMIT
        &&& 1 <= self.width <= 100000
        &&& 1 <= self.height <= 100000
        &&& -BOUND_LIMIT <= self.min.x < 0
        &&& -BOUND_LIMIT <= self.min.y < 0
        &&& 0 < self.max.x <= BOUND_LIMIT
        &&& 0 < self.max.y <= BOUND_LIMIT
    }

    /// A fresh grid: the initial window is half a step around zero on each
    /// axis, so it is never empty.
    pub fn new(width: i64, height: i64, x_step: i64, y_step: i64) -> (g: Grid)
        requires
            2 <= x_step <= STEP_LIMIT,
            2 <= y_step <= STEP_LIMIT,
            1 <= width <= 100000,
            1 <= height <= 100000,
        ensures
            g.wf(),
            g.width == width,
            g.height == height,
            g.x_step == x_step,
            g.y_step == y_step,
            g.max == (Point { x: (x_step / 2) as i64, y: (y_step / 2) as i64 }),
            g.min == (Point { x: (-(x_step / 2)) as i64, y: (-(y_step / 2)) as i64 }),
            g.texts@.len() == 0,
    {
        let half_x = x_step / 2;
        let half_y = y_step / 2;
        Grid {
            width,
            height,
            x_step,
            y_step,
            max: Point { x: half_x, y: half_y },
            min: Point { x: -half_x, y: -half_y },
            texts: Vec::new(),
        }
    }

    /// Widens the bounds so the window keeps a margin around `point`:
    /// a full step horizontally, half a step vertically.  Bounds never
    /// shrink, and afterwards the window contains the point.
    pub fn update_bounds(&mut self, point: Point)
        requires
            old(self).wf(),
            point_in_range(point),
        ensures
            final(self).wf(),
            bounds_updated(*old(self), *final(self), point),
            // The window now contains the point.
            final(self).min.x <= point.x <= final(self).max.x,
            final(self).min.y <= point.y <= final(self).max.y,
            // Bounds only ever grow.
            final(self).min.x <= old(self).min.x,
            final(self).min.y <= old(self).min.y,
            final(self).max.x >= old(self).max.x,
            final(self).max.y >= old(self).max.y,
    {
        let half = self.y_step / 2;
        if self.max.x < point.x + self.x_step {
            self.max.x = point.x + self.x_step;
        }
        if self.max.y <= point.y + half {
            self.max.y = point.y + half;
        }
        if self.min.x >= point.x - self.x_step {
            self.min.x = point.x - self.x_step;
        }
        if self.min.y >= point.y - half {
            self.min.y = point.y - half;
        }
    }

    /// Maps a domain point to its screen position, as an exact rational per
    /// axis.  The denominators are the bound spans, which are positive.
    pub fn to_screen(&self, point: Point) -> (r: ScreenPt)
        requires
            self.wf(),
            point_in_range(point),
        ensures
            r == to_screen_spec(*self, point),
            r.x.den > 0,
            r.y.den > 0,
    {
        proof {
            lemma_screen_num_in_range(*self, point);
        }
        ScreenPt {
            x: ScreenCoord {
                num: (point.x - self.min.x) * self.width,
                den: self.max.x - self.min.x,
            },
            y: ScreenCoord {
                num: (point.y - self.min.y) * self.height,
                den: self.max.y - self.min.y,
            },
        }
    }

    /// Applies the inverse affine transform to a screen position produced
    /// with this grid's bounds, recovering the domain coordinates.
    pub fn from_screen(&self, sx: ScreenCoord, sy: ScreenCoord) -> (r: Point)
        requires
            self.wf(),
            0 <= sx.num,
            0 <= sy.num,
        ensures
            r == from_screen_spec(*self, sx, sy),
    {
        let qx = (sx.num as u64 / self.width as u64) as i64;
        let qy = (sy.num as u64 / self.height as u64) as i64;
        proof {
            vstd::arithmetic::div_mod::lemma_div_nonincreasing(sx.num as int, self.width as int);
            vstd::arithmetic::div_mod::lemma_div_pos_is_pos(sx.num as int, self.width as int);
            vstd::arithmetic::div_mod::lemma_div_nonincreasing(sy.num as int, self.height as int);
            vstd::arithmetic::div_mod::lemma_div_pos_is_pos(sy.num as int, self.height as int);
        }
        Point { x: qx + self.min.x, y: qy + self.min.y }
    }

    /// Recomputes the whole tick-label layout from the current bounds: on
    /// each axis, one label per step from zero up to the upper bound, then
    /// from zero down to the lower bound.  Nothing else changes, and the
    /// result is exactly `label_seq`, a function of bounds, steps and
    /// canvas size alone.
    pub fn build_texts(&mut self)
        requires
            old(self).wf(),
        ensures
            final(self).wf(),
            labels_view(final(self).texts@) == label_seq(*old(self)),
            final(self).min == old(self).min,
            final(self).max == old(self).max,
            final(self).x_step == old(self).x_step,
            final(self).y_step == old(self).y_step,
            final(self).width == old(self).width,
            final(self).height == old(self).height,
    {
        let ghost g0 = *old(self);
        let mut out: Vec<Label> = Vec::new();

        let mut x: i64 = 0;
        while x <= self.max.x
            invariant
                0 <= x <= self.max.x + self.x_step,
                labels_view(out@) + x_labels_up(g0, x as int) == x_labels_up(g0, 0),
            decreases self.max.x + self.x_step - x,
        {
            let lab = self.x_label(x);
            proof {
                lemma_push_label(out@, lab, x_labels_up(g0, x as int + g0.x_step), x_labels_up(g0, x as int));
            }
            out.push(lab);
            x = x + self.x_step;
        }

        let mut x: i64 = 0;
        let ghost done1 = x_labels_up(g0, 0);
        proof {
            assert(labels_view(out@) =~= done1);
        }
        while x >= self.min.x
            invariant
                self.min.x - self.x_step <= x <= 0,
                labels_view(out@) + x_labels_down(g0, x as int) == done1 + x_labels_down(g0, 0),
            decreases x - self.min.x + self.x_step,
        {
            let lab = self.x_label(x);
            proof {
                lemma_push_label(out@, lab, x_labels_down(g0, x as int - g0.x_step), x_labels_down(g0, x as int));
            }
            out.push(lab);
            x = x - self.x_step;
        }

        let ghost done2 = done1 + x_labels_down(g0, 0);
        proof {
            assert(labels_view(out@) =~= done2);
        }
        let mut y: i64 = 0;
        while y <= self.max.y
            invariant
                0 <= y <= self.max.y + self.y_step,
                labels_view(out@) + y_labels_up(g0, y as int) == done2 + y_labels_up(g0, 0),
            decreases self.max.y + self.y_step - y,
        {
            let lab = self.y_label(y);
            proof {
                lemma_push_label(out@, lab, y_labels_up(g0, y as int + g0.y_step), y_labels_up(g0, y as int));
            }
            out.push(lab);
            y = y + self.y_step;
        }

        let ghost done3 = done2 + y_labels_up(g0, 0);
        proof {
            assert(labels_view(out@) =~= done3);
        }
        let mut y: i64 = 0;
        while y >= self.min.y
            invariant
                self.min.y - self.y_step <= y <= 0,
                labels_view(out@) + y_labels_down(g0, y as int) == done3 + y_labels_down(g0, 0),
            decreases y - self.min.y + self.y_step,
        {
            let lab = self.y_label(y);
            proof {
                lemma_push_label(out@, lab, y_labels_down(g0, y as int - g0.y_step), y_labels_down(g0, y as int));
            }
            out.push(lab);
            y = y - self.y_step;
        }

        proof {
            assert(labels_view(out@) =~= label_seq(g0));
        }
        self.texts = out;
    }

    /// Emits the grid's drawing commands: the tick-line color, one vertical
    /// line per x tick and one horizontal line per y tick (walked from zero
    /// outward, exactly like the labels).
    pub fn draw(&self) -> (cmds: Vec<DrawCmd>)
        requires
            self.wf(),
        ensures
            cmds_view(cmds@) == grid_draw_spec(*self),
    {
        let g = self;
        let mut out: Vec<DrawCmd> = Vec::new();
        out.push(DrawCmd::SetColor(Color { r: 5, g: 5, b: 5 }));
        let ghost done0 = seq![DrawCmdModel::SetColor(grid_color())];
        proof {
            assert(cmds_view(out@) =~= done0);
        }

        let mut x: i64 = 0;
        while x <= self.max.x
            invariant
                0 <= x <= self.max.x + self.x_step,
                cmds_view(out@) + x_lines_up(*g, x as int) == done0 + x_lines_up(*g, 0),
            decreases self.max.x + self.x_step - x,
        {
            let cmd = self.x_line(x);
            proof {
                lemma_push_cmd(out@, cmd, x_lines_up(*g, x as int + g.x_step), x_lines_up(*g, x as int));
            }
            out.push(cmd);
            x = x + self.x_step;
        }

        let ghost done1 = done0 + x_lines_up(*g, 0);
        proof {
            assert(cmds_view(out@) =~= done1);
        }
        let mut x: i64 = 0;
        while x >= self.min.x
            invariant
                self.min.x - self.x_step <= x <= 0,
                cmds_view(out@) + x_lines_down(*g, x as int) == done1 + x_lines_down(*g, 0),
            decreases x - self.min.x + self.x_step,
        {
            let cmd = self.x_line(x);
            proof {
                lemma_push_cmd(out@, cmd, x_lines_down(*g, x as int - g.x_step), x_lines_down(*g, x as int));
            }
            out.push(cmd);
            x = x - self.x_step;
        }

        let ghost done2 = done1 + x_lines_down(*g, 0);
        proof {
            assert(cmds_view(out@) =~= done2);
        }
        let mut y: i64 = 0;
        while y <= self.max.y
            invariant
                0 <= y <= self.max.y + self.y_step,
                cmds_view(out@) + y_lines_up(*g, y as int) == done2 + y_lines_up(*g, 0),
            decreases self.max.y + self.y_step - y,
        {
            let cmd = self.y_line(y);
            proof {
                lemma_push_cmd(out@, cmd, y_lines_up(*g, y as int + g.y_step), y_lines_up(*g, y as int));
            }
            out.push(cmd);
            y = y + self.y_step;
        }

        let ghost done3 = done2 + y_lines_up(*g, 0);
        proof {
            assert(cmds_view(out@) =~= done3);
        }
        let mut y: i64 = 0;
        while y >= self.min.y
            invariant
                self.min.y - self.y_step <= y <= 0,
                cmds_view(out@) + y_lines_down(*g, y as int) == done3 + y_lines_down(*g, 0),
            decreases y - self.min.y + self.y_step,
        {
            let cmd = self.y_line(y);
            proof {
                lemma_push_cmd(out@, cmd, y_lines_down(*g, y as int - g.y_step), y_lines_down(*g, y as int));
            }
            out.push(cmd);
            y = y - self.y_step;
        }

        proof {
            assert(cmds_view(out@) =~= grid_draw_spec(*self));
        }
        out
    }

    /// Emits one text command per stored label, in storage order.  The
    /// frame draws these last, after every strip.
    pub fn draw_labels(&self) -> (cmds: Vec<DrawCmd>)
        ensures
            cmds_view(cmds@) == text_cmds(labels_view(self.texts@)),
    {
        let mut out: Vec<DrawCmd> = Vec::new();
        let n = self.texts.len();
        let mut i: usize = 0;
        while i < n
            invariant
                i <= n,
                cmds_view(out@) == text_cmds(labels_view(self.texts@.take(i as int))),
            decreases n - i,
        {
            let cmd = DrawCmd::Text(self.texts[i].duplicate());
            proof {
                let t = self.texts@;
                assert(cmds_view(out@.push(cmd)) =~= cmds_view(out@).push(cmd@));
                assert(text_cmds(labels_view(t.take(i as int + 1)))
                    =~= text_cmds(labels_view(t.take(i as int))).push(DrawCmdModel::Text(t[i as int]@)));
            }
            out.push(cmd);
            i += 1;
        }
        proof {
            assert(self.texts@.take(n as int) =~= self.texts@);
        }
        out
    }

    /// Builds the vertical tick line at horizontal coordinate `x`.
    fn x_line(&self, x: i64) -> (cmd: DrawCmd)
        requires
            self.wf(),
            -BOUND_LIMIT <= x as int <= BOUND_LIMIT,
        ensures
            cmd@ == x_line_at(*self, x as int),
    {
        proof {
            lemma_screen_num_bounded(self.min.x as int, x as int, self.width as int);
        }
        let sx = ScreenCoord { num: (x - self.min.x) * self.width, den: self.max.x - self.min.x };
        DrawCmd::Line(
            ScreenPt { x: sx, y: ScreenCoord { num: 0, den: 1 } },
            ScreenPt { x: sx, y: ScreenCoord { num: self.height, den: 1 } },
        )
    }

    /// Builds the horizontal tick line at vertical coordinate `y`.
    fn y_line(&self, y: i64) -> (cmd: DrawCmd)
        requires
            self.wf(),
            -BOUND_LIMIT <= y as int <= BOUND_LIMIT,
        ensures
            cmd@ == y_line_at(*self, y as int),
    {
        proof {
            lemma_screen_num_bounded(self.min.y as int, y as int, self.height as int);
        }
        let sy = ScreenCoord { num: (y - self.min.y) * self.height, den: self.max.y - self.min.y };
        DrawCmd::Line(
            ScreenPt { x: ScreenCoord { num: 0, den: 1 }, y: sy },
            ScreenPt { x: ScreenCoord { num: self.width, den: 1 }, y: sy },
        )
    }

    /// Builds the tick label for horizontal coordinate `x`.
    fn x_label(&self, x: i64) -> (lab: Label)
        requires
            self.wf(),
            -BOUND_LIMIT <= x as int <= BOUND_LIMIT,
        ensures
            lab@ == x_label_at(*self, x as int),
    {
        proof {
            lemma_screen_num_bounded(self.min.x as int, x as int, self.width as int);
        }
        Label {
            x: ScreenCoord { num: (x - self.min.x) * self.width, den: self.max.x - self.min.x },
            y: ScreenCoord { num: 0, den: 1 },
            text: format_fixed2(x),
        }
    }

    /// Builds the tick label for vertical coordinate `y`.
    fn y_label(&self, y: i64) -> (lab: Label)
        requires
            self.wf(),
            -BOUND_LIMIT <= y as int <= BOUND_LIMIT,
        ensures
            lab@ == y_label_at(*self, y as int),
    {
        proof {
            lemma_screen_num_bounded(self.min.y as int, y as int, self.height as int);
        }
        Label {
            x: ScreenCoord { num: 0, den: 1 },
            y: ScreenCoord { num: (y - self.min.y) * self.height, den: self.max.y - self.min.y },
            text: format_fixed2(y),
        }
    }
}

/// Appending one label to the accumulator and peeling it off the front of
/// the remaining walk preserves the walk equation of the label loops.
proof fn lemma_push_label(acc: Seq<Label>, lab: Label, rest: Seq<LabelModel>, cur: Seq<LabelModel>)
    requires
        cur == seq![lab@] + rest,
    ensures
        labels_view(acc.push(lab)) + rest =~= labels_view(acc) + cur,
{
    assert(labels_view(acc.push(lab)) =~= labels_view(acc).push(lab@));
}

/// Appending one command to the accumulator and peeling it off the front of
/// the remaining walk preserves the walk equation of the command loops.
proof fn lemma_push_cmd(acc: Seq<DrawCmd>, cmd: DrawCmd, rest: Seq<DrawCmdModel>, cur: Seq<DrawCmdModel>)
    requires
        cur == seq![cmd@] + rest,
    ensures
        cmds_view(acc.push(cmd)) + rest =~= cmds_view(acc) + cur,
{
    assert(cmds_view(acc.push(cmd)) =~= cmds_view(acc).push(cmd@));
}

/// The color of the grid's tick lines: a mid gray.
pub open spec fn grid_color() -> Color {
    Color { r: 5, g: 5, b: 5 }
}

/// The vertical tick line at horizontal domain coordinate `x`, spanning
/// the canvas from bottom to top.
pub open spec fn x_line_at(g: Grid, x: int) -> DrawCmdModel {
    DrawCmdModel::Line(
        ScreenPt { x: screen_x_spec(g, x), y: whole_coord(0) },
        ScreenPt { x: screen_x_spec(g, x), y: whole_coord(g.height as int) },
    )
}

/// The horizontal tick line at vertical domain coordinate `y`, spanning
/// the canvas from left to right.
pub open spec fn y_line_at(g: Grid, y: int) -> DrawCmdModel {
    DrawCmdModel::Line(
        ScreenPt { x: whole_coord(0), y: screen_y_spec(g, y) },
        ScreenPt { x: whole_coord(g.width as int), y: screen_y_spec(g, y) },
    )
}

/// Tick lines from `x` upward to the upper bound, one per step.
pub open spec fn x_lines_up(g: Grid, x: int) -> Seq<DrawCmdModel>
    decreases g.max.x + g.x_step - x when g.x_step >= 1
{
    if x > g.max.x {
        Seq::empty()
    } else {
        seq![x_line_at(g, x)] + x_lines_up(g, x + g.x_step)
    }
}

/// Tick lines from `x` downward to the lower bound, one per step.
pub open spec fn x_lines_down(g: Grid, x: int) -> Seq<DrawCmdModel>
    decreases x - g.min.x + g.x_step when g.x_step >= 1
{
    if x < g.min.x {
        Seq::empty()
    } else {
        seq![x_line_at(g, x)] + x_lines_down(g, x - g.x_step)
    }
}

/// Tick lines from `y` upward to the upper bound, one per step.
pub open spec fn y_lines_up(g: Grid, y: int) -> Seq<DrawCmdModel>
    decreases g.max.y + g.y_step - y when g.y_step >= 1
{
    if y > g.max.y {
        Seq::empty()
    } else {
        seq![y_line_at(g, y)] + y_lines_up(g, y + g.y_step)
    }
}

/// Tick lines from `y` downward to the lower bound, one per step.
pub open spec fn y_lines_down(g: Grid, y: int) -> Seq<DrawCmdModel>
    decreases y - g.min.y + g.y_step when g.y_step >= 1
{
    if y < g.min.y {
        Seq::empty()
    } else {
        seq![y_line_at(g, y)] + y_lines_down(g, y - g.y_step)
    }
}

/// One drawing command per stored label.
pub open spec fn text_cmds(ls: Seq<LabelModel>) -> Seq<DrawCmdModel> {
    ls.map_values(|l: LabelModel| DrawCmdModel::Text(l))
}

/// Everything the grid itself draws: the tick-line color, then the tick
/// lines walked from zero outward on both axes.  The stored labels are
/// emitted separately, at the end of the frame (see `Grid::draw_labels`).
pub open spec fn grid_draw_spec(g: Grid) -> Seq<DrawCmdModel> {
    seq![DrawCmdModel::SetColor(grid_color())] + x_lines_up(g, 0) + x_lines_down(g, 0)
        + y_lines_up(g, 0) + y_lines_down(g, 0)
}

/// Whether two grids agree on everything the label layout reads: bounds,
/// steps and canvas size.
pub open spec fn same_frame(g1: Grid, g2: Grid) -> bool {
    &&& g1.min == g2.min
    &&& g1.max == g2.max
    &&& g1.x_step == g2.x_step
    &&& g1.y_step == g2.y_step
    &&& g1.width == g2.width
    &&& g1.height == g2.height
}

proof fn lemma_x_labels_up_pure(g1: Grid, g2: Grid, x: int)
    requires
        same_frame(g1, g2),
        g1.x_step >= 1,
    ensures
        x_labels_up(g1, x) == x_labels_up(g2, x),
    decreases g1.max.x + g1.x_step - x,
{
    if x <= g1.max.x {
        lemma_x_labels_up_pure(g1, g2, x + g1.x_step);
    }
}

proof fn lemma_x_labels_down_pure(g1: Grid, g2: Grid, x: int)
    requires
        same_frame(g1, g2),
        g1.x_step >= 1,
    ensures
        x_labels_down(g1, x) == x_labels_down(g2, x),
    decreases x - g1.min.x + g1.x_step,
{
    if x >= g1.min.x {
        lemma_x_labels_down_pure(g1, g2, x - g1.x_step);
    }
}

proof fn lemma_y_labels_up_pure(g1: Grid, g2: Grid, y: int)
    requires
        same_frame(g1, g2),
        g1.y_step >= 1,
    ensures
        y_labels_up(g1, y) == y_labels_up(g2, y),
    decreases g1.max.y + g1.y_step - y,
{
    if y <= g1.max.y {
        lemma_y_labels_up_pure(g1, g2, y + g1.y_step);
    }
}

proof fn lemma_y_labels_down_pure(g1: Grid, g2: Grid, y: int)
    requires
        same_frame(g1, g2),
        g1.y_step >= 1,
    ensures
        y_labels_down(g1, y) == y_labels_down(g2, y),
    decreases y - g1.min.y + g1.y_step,
{
    if y >= g1.min.y {
        lemma_y_labels_down_pure(g1, g2, y - g1.y_step);
    }
}

/// The label layout is a pure function of the bounds, steps and canvas
/// size: two grids that agree on those — whatever labels they currently
/// store — rebuild exactly the same label set.  In particular, rebuilding
/// twice with unchanged bounds yields identical labels.
pub proof fn lemma_label_layout_pure(g1: Grid, g2: Grid)
    requires
        same_frame(g1, g2),
        g1.x_step >= 1,
        g1.y_step >= 1,
    ensures
        label_seq(g1) == label_seq(g2),
{
    lemma_x_labels_up_pure(g1, g2, 0);
    lemma_x_labels_down_pure(g1, g2, 0);
    lemma_y_labels_up_pure(g1, g2, 0);
    lemma_y_labels_down_pure(g1, g2, 0);
}

/// The screen numerator of any coordinate within the bound range stays well
/// inside the machine range.
proof fn lemma_screen_num_bounded(span_lo: int, v: int, size: int)
    requires
        -BOUND_LIMIT <= span_lo <= BOUND_LIMIT,
        -BOUND_LIMIT <= v <= BOUND_LIMIT,
        1 <= size <= 100000,
    ensures
        -300000000000000000 <= (v - span_lo) * size <= 300000000000000000,
{
    assert(-300000000000000000 <= (v - span_lo) * size <= 300000000000000000) by (nonlinear_arith)
        requires
            -(2 * BOUND_LIMIT) <= v - span_lo <= 2 * BOUND_LIMIT,
            1 <= size <= 100000,
            2 * BOUND_LIMIT <= 3000000000000,
    ;
}

/// The screen numerators and denominators of an in-range point stay well
/// inside the machine range.
proof fn lemma_screen_num_in_range(g: Grid, p: Point)
    requires
        g.wf(),
        point_in_range(p),
    ensures
        -300000000000000000 <= (p.x - g.min.x) * g.width <= 300000000000000000,
        -300000000000000000 <= (p.y - g.min.y) * g.height <= 300000000000000000,
{
    lemma_screen_num_bounded(g.min.x as int, p.x as int, g.width as int);
    lemma_screen_num_bounded(g.min.y as int, p.y as int, g.height as int);
}

/// The tick label at horizontal domain coordinate `x`: the tick value with
/// two decimals, placed on the bottom edge of the canvas.
pub open spec fn x_label_at(g: Grid, x: int) -> LabelModel {
    LabelModel { x: screen_x_spec(g, x), y: whole_coord(0), text: format_fixed2_spec(x) }
}

/// The tick label at vertical domain coordinate `y`, on the left edge.
pub open spec fn y_label_at(g: Grid, y: int) -> LabelModel {
    LabelModel { x: whole_coord(0), y: screen_y_spec(g, y), text: format_fixed2_spec(y) }
}

/// Labels from `x` upward to the upper bound, one per step.
pub open spec fn x_labels_up(g: Grid, x: int) -> Seq<LabelModel>
    decreases g.max.x + g.x_step - x when g.x_step >= 1
{
    if x > g.max.x {
        Seq::empty()
    } else {
        seq![x_label_at(g, x)] + x_labels_up(g, x + g.x_step)
    }
}

/// Labels from `x` downward to the lower bound, one per step.
pub open spec fn x_labels_down(g: Grid, x: int) -> Seq<LabelModel>
    decreases x - g.min.x + g.x_step when g.x_step >= 1
{
    if x < g.min.x {
        Seq::empty()
    } else {
        seq![x_label_at(g, x)] + x_labels_down(g, x - g.x_step)
    }
}

/// Labels from `y` upward to the upper bound, one per step.
pub open spec fn y_labels_up(g: Grid, y: int) -> Seq<LabelModel>
    decreases g.max.y + g.y_step - y when g.y_step >= 1
{
    if y > g.max.y {
        Seq::empty()
    } else {
        seq![y_label_at(g, y)] + y_labels_up(g, y + g.y_step)
    }
}

/// Labels from `y` downward to the lower bound, one per step.
pub open spec fn y_labels_down(g: Grid, y: int) -> Seq<LabelModel>
    decreases y - g.min.y + g.y_step when g.y_step >= 1
{
    if y < g.min.y {
        Seq::empty()
    } else {
        seq![y_label_at(g, y)] + y_labels_down(g, y - g.y_step)
    }
}

/// The full label layout: ticks walk from zero outward on each axis, so
/// tick positions are always whole multiples of the step sizes.  It is a
/// function of the bounds, steps and canvas size alone.
pub open spec fn label_seq(g: Grid) -> Seq<LabelModel> {
    x_labels_up(g, 0) + x_labels_down(g, 0) + y_labels_up(g, 0) + y_labels_down(g, 0)
}

/// With the bounds held fixed, the horizontal screen coordinate strictly
/// grows with the domain coordinate: both rationals share the same positive
/// denominator and the numerators are strictly ordered.
pub proof fn lemma_to_screen_monotonic(g: Grid, p1: Point, p2: Point)
    requires
        g.wf(),
        point_in_range(p1),
        point_in_range(p2),
        p1.x < p2.x,
    ensures
        to_screen_spec(g, p1).x.den == to_screen_spec(g, p2).x.den,
        to_screen_spec(g, p1).x.den > 0,
        to_screen_spec(g, p1).x.num < to_screen_spec(g, p2).x.num,
{
    lemma_screen_num_in_range(g, p1);
    lemma_screen_num_in_range(g, p2);
    assert((p1.x - g.min.x) * g.width < (p2.x - g.min.x) * g.width) by (nonlinear_arith)
        requires
            p1.x < p2.x,
            g.width >= 1,
    ;
}

/// Round trip: mapping a domain point to the screen and applying the
/// inverse transform with the same bounds recovers the point exactly.
pub proof fn lemma_to_screen_round_trip(g: Grid, p: Point)
    requires
        g.wf(),
        point_in_range(p),
    ensures
        from_screen_spec(g, to_screen_spec(g, p).x, to_screen_spec(g, p).y) == p,
{
    lemma_screen_num_in_range(g, p);
    let dx = p.x - g.min.x;
    let dy = p.y - g.min.y;
    vstd::arithmetic::div_mod::lemma_div_multiples_vanish(dx as int, g.width as int);
    vstd::arithmetic::div_mod::lemma_div_multiples_vanish(dy as int, g.height as int);
    assert(dx * g.width == g.width * dx) by (nonlinear_arith);
    assert(dy * g.height == g.height * dy) by (nonlinear_arith);
}

} // verus!
