//! The frame state: the grid plus one strip per series, fed by samples.
//!
//! Distributing a sample is the decision core of the render loop: value
//! `i` of a sample goes to strip `i`, strips are created on first use with
//! the next palette color, and every point widens the grid bounds before
//! the next frame is laid out.

use vstd::prelude::*;
use crate::fixed::STEP_LIMIT;
use crate::grid::{Grid, in_range, upd_min_spec, upd_max_spec, grid_draw_spec, text_cmds};
use crate::line::{Line, Strip, strip_draw_spec};
use crate::render::{Point, Color, DrawCmd, DrawCmdModel, cmds_view, labels_view, origin_spec};

verus! {

/// The fixed palette, nine colors; channels are tenths of full intensity.
pub open spec fn palette_spec(k: int) -> Color {
    if k == 0 {
        Color { r: 10, g: 10, b: 0 }
    } else if k == 1 {
        Color { r: 0, g: 10, b: 0 }
    } else if k == 2 {
        Color { r: 0, g: 0, b: 10 }
    } else if k == 3 {
        Color { r: 10, g: 10, b: 0 }
    } else if k == 4 {
        Color { r: 10, g: 0, b: 10 }
    } else if k == 5 {
        Color { r: 0, g: 10, b: 10 }
    } else if k == 6 {
        Color { r: 10, g: 5, b: 0 }
    } else if k == 7 {
        Color { r: 5, g: 10, b: 0 }
    } else {
        Color { r: 5, g: 5, b: 10 }
    }
}

/// The palette color of series `i`: the nine-entry palette wraps around.
pub fn palette_color(i: usize) -> (c: Color)
    ensures
        c == palette_spec((i as int) % 9),
{
    let k = i % 9;
    if k == 0 {
        Color { r: 10, g: 10, b: 0 }
    } else if k == 1 {
        Color { r: 0, g: 10, b: 0 }
    } else if k == 2 {
        Color { r: 0, g: 0, b: 10 }
    } else if k == 3 {
        Color { r: 10, g: 10, b: 0 }
    } else if k == 4 {
        Color { r: 10, g: 0, b: 10 }
    } else if k == 5 {
        Color { r: 0, g: 10, b: 10 }
    } else if k == 6 {
        Color { r: 10, g: 5, b: 0 }
    } else if k == 7 {
        Color { r: 5, g: 10, b: 0 }
    } else {
        Color { r: 5, g: 5, b: 10 }
    }
}

/// The grid after the values of one sample have widened the bounds, value
/// by value in order; every other grid field stays put.
pub open spec fn grid_after_values(g: Grid, x: i64, vs: Seq<i64>) -> Grid
    decreases vs.len(),
{
    if vs.len() == 0 {
        g
    } else {
        let p = Point { x, y: vs[0] };
        let g1 = Grid {
            min: upd_min_spec(g.min, p, g.x_step as int, g.y_step as int),
            max: upd_max_spec(g.max, p, g.x_step as int, g.y_step as int),
            ..g
        };
        grid_after_values(g1, x, vs.skip(1))
    }
}

/// Feeding values never touches the grid's steps, canvas size or labels.
pub proof fn lemma_grid_after_values_frame(g: Grid, x: i64, vs: Seq<i64>)
    ensures
        grid_after_values(g, x, vs).width == g.width,
        grid_after_values(g, x, vs).height == g.height,
        grid_after_values(g, x, vs).x_step == g.x_step,
        grid_after_values(g, x, vs).y_step == g.y_step,
        grid_after_values(g, x, vs).texts == g.texts,
    decreases vs.len(),
{
    if vs.len() > 0 {
        let p = Point { x, y: vs[0] };
        let g1 = Grid {
            min: upd_min_spec(g.min, p, g.x_step as int, g.y_step as int),
            max: upd_max_spec(g.max, p, g.x_step as int, g.y_step as int),
            ..g
        };
        lemma_grid_after_values_frame(g1, x, vs.skip(1));
    }
}

/// The whole frame state: the grid and one strip per series seen so far.
pub struct Chart {
    pub grid: Grid,
    pub strips: Vec<Strip>,
}

/// Everything the strips draw, in creation order.
pub open spec fn strips_draw_seq(ss: Seq<Strip>, g: Grid) -> Seq<DrawCmdModel>
    decreases ss.len(),
{
    if ss.len() == 0 {
        Seq::empty()
    } else {
        strip_draw_spec(ss[0], g) + strips_draw_seq(ss.skip(1), g)
    }
}

/// Everything one frame draws, in order: clear, the grid's tick lines,
/// every strip in creation order, then every label.
pub open spec fn chart_render_spec(c: Chart) -> Seq<DrawCmdModel> {
    seq![DrawCmdModel::Clear] + grid_draw_spec(c.grid) + strips_draw_seq(c.strips@, c.grid)
        + text_cmds(labels_view(c.grid.texts@))
}

impl Chart {
    /// The grid is well formed and every strip is a connected in-range
    /// polyline.
    pub open spec fn wf(&self) -> bool {
        &&& self.grid.wf()
        &&& forall|i: int| 0 <= i < self.strips@.len() ==> (#[trigger] self.strips@[i]).wf()
    }

    /// A fresh chart over a fresh grid, with no series yet.
    pub fn new(width: i64, height: i64, x_step: i64, y_step: i64) -> (c: Chart)
        requires
            2 <= x_step <= STEP_LIMIT,
            2 <= y_step <= STEP_LIMIT,
            1 <= width <= 100000,
            1 <= height <= 100000,
        ensures
            c.wf(),
            c.strips@.len() == 0,
            c.grid.width == width,
            c.grid.height == height,
            c.grid.x_step == x_step,
            c.grid.y_step == y_step,
            c.grid.max == (Point { x: (x_step / 2) as i64, y: (y_step / 2) as i64 }),
            c.grid.min == (Point { x: (-(x_step / 2)) as i64, y: (-(y_step / 2)) as i64 }),
            c.grid.texts@.len() == 0,
    {
        Chart { grid: Grid::new(width, height, x_step, y_step), strips: Vec::new() }
    }

    /// Distributes one sample: value `i` extends strip `i` by one segment
    /// ending at `(x, values[i])`, strips missing so far are created with
    /// the wrapping palette color, and the bounds are widened around every
    /// new point in order.
    pub fn ingest_sample(&mut self, x: i64, values: &Vec<i64>)
        requires
            old(self).wf(),
            in_range(x as int),
            forall|i: int| 0 <= i < values@.len() ==> in_range(#[trigger] values@[i] as int),
        ensures
            final(self).wf(),
            final(self).grid == grid_after_values(old(self).grid, x, values@),
            final(self).strips@.len() == (if values@.len() <= old(self).strips@.len() {
                old(self).strips@.len() as int
            } else {
                values@.len() as int
            }),
            forall|j: int|
                0 <= j < values@.len() && j < old(self).strips@.len()
                    ==> (#[trigger] final(self).strips@[j]).color == old(self).strips@[j].color
                    && final(self).strips@[j].lines@ == old(self).strips@[j].lines@.push(
                    Line { p1: old(self).strips@[j].last_point_spec(), p2: Point { x, y: values@[j] } },
                ),
            forall|j: int|
                old(self).strips@.len() <= j < values@.len()
                    ==> (#[trigger] final(self).strips@[j]).color == palette_spec(j % 9)
                    && final(self).strips@[j].lines@ == seq![
                    Line { p1: origin_spec(), p2: Point { x, y: values@[j] } },
                ],
            forall|j: int|
                values@.len() <= j < old(self).strips@.len()
                    ==> final(self).strips@[j] == old(self).strips@[j],
    {
        let ghost vs = values@;
        let ghost old_len = old(self).strips@.len() as int;
        let n = values.len();
        let mut i: usize = 0;
        proof {
            assert(vs.skip(0) =~= vs);
        }
        while i < n
            invariant
                i <= n,
                n == vs.len(),
                self.grid.wf(),
                self.strips@.len() == (if i as int <= old_len {
                    old_len
                } else {
                    i as int
                }),
                grid_after_values(self.grid, x, vs.skip(i as int)) == grid_after_values(
                    old(self).grid,
                    x,
                    vs,
                ),
                forall|j: int| 0 <= j < self.strips@.len() ==> (#[trigger] self.strips@[j]).wf(),
                forall|j: int|
                    0 <= j < i && j < old_len
                        ==> (#[trigger] self.strips@[j]).color == old(self).strips@[j].color
                        && self.strips@[j].lines@ == old(self).strips@[j].lines@.push(
                        Line {
                            p1: old(self).strips@[j].last_point_spec(),
                            p2: Point { x, y: vs[j] },
                        },
                    ),
                forall|j: int|
                    old_len <= j < i ==> (#[trigger] self.strips@[j]).color == palette_spec(j % 9)
                        && self.strips@[j].lines@ == seq![
                        Line { p1: origin_spec(), p2: Point { x, y: vs[j] } },
                    ],
                forall|j: int| i <= j < old_len ==> self.strips@[j] == old(self).strips@[j],
            decreases n - i,
        {
            let p = Point { x, y: values[i] };
            let ghost pre_grid = self.grid;
            let ghost pre_strips = self.strips@;
            if i < self.strips.len() {
                self.strips[i].add_line(p, &mut self.grid);
            } else {
                let mut strip = Strip::new(palette_color(i));
                strip.add_line(p, &mut self.grid);
                self.strips.push(strip);
            }
            proof {
                let g1 = Grid {
                    min: upd_min_spec(pre_grid.min, p, pre_grid.x_step as int, pre_grid.y_step as int),
                    max: upd_max_spec(pre_grid.max, p, pre_grid.x_step as int, pre_grid.y_step as int),
                    ..pre_grid
                };
                assert(self.grid == g1);
                assert(vs.skip(i as int)[0] == vs[i as int]);
                assert(vs.skip(i as int).skip(1) =~= vs.skip(i as int + 1));
                assert(grid_after_values(pre_grid, x, vs.skip(i as int)) == grid_after_values(
                    g1,
                    x,
                    vs.skip(i as int + 1),
                ));
            }
            i += 1;
        }
        proof {
            assert(vs.skip(n as int) =~= Seq::<i64>::empty());
        }
    }

    /// Emits the whole frame in drawing order: clear, the grid's tick
    /// lines, every strip in creation order, then every label.
    pub fn render(&self) -> (cmds: Vec<DrawCmd>)
        requires
            self.wf(),
        ensures
            cmds_view(cmds@) == chart_render_spec(*self),
    {
        let mut out: Vec<DrawCmd> = Vec::new();
        out.push(DrawCmd::Clear);
        let mut grid_cmds = self.grid.draw();
        out.append(&mut grid_cmds);
        let ghost head = seq![DrawCmdModel::Clear] + grid_draw_spec(self.grid);
        proof {
            assert(cmds_view(out@) =~= head);
        }
        let n = self.strips.len();
        let mut j: usize = 0;
        proof {
            assert(self.strips@.skip(0) =~= self.strips@);
        }
        while j < n
            invariant
                j <= n,
                cmds_view(out@) + strips_draw_seq(self.strips@.skip(j as int), self.grid)
                    == head + strips_draw_seq(self.strips@, self.grid),
            decreases n - j,
        {
            let mut sc = self.strips[j].draw(&self.grid);
            let ghost pre = out@;
            let ghost scv = sc@;
            proof {
                assert(self.strips@.skip(j as int)[0] == self.strips@[j as int]);
                assert(self.strips@.skip(j as int).skip(1) =~= self.strips@.skip(j as int + 1));
            }
            out.append(&mut sc);
            proof {
                assert(cmds_view(out@) =~= cmds_view(pre) + cmds_view(scv));
                assert(cmds_view(out@) + strips_draw_seq(self.strips@.skip(j as int + 1), self.grid)
                    =~= cmds_view(pre) + strips_draw_seq(self.strips@.skip(j as int), self.grid));
            }
            j += 1;
        }
        let ghost pre_labels = out@;
        let mut label_cmds = self.grid.draw_labels();
        let ghost lcv = label_cmds@;
        out.append(&mut label_cmds);
        proof {
            assert(self.strips@.skip(n as int) =~= Seq::<Strip>::empty());
            assert(cmds_view(pre_labels) =~= head + strips_draw_seq(self.strips@, self.grid));
            assert(cmds_view(out@) =~= cmds_view(pre_labels) + cmds_view(lcv));
            assert(cmds_view(out@) =~= chart_render_spec(*self));
        }
        out
    }
}

} // verus!
