//! Per-series polyline accumulation.
//!
//! A [`Strip`] owns the ordered segment list of one series and its display
//! color.  Segments chain: each one starts where the previous one ended,
//! and the very first starts at the domain origin.  Appending a point also
//! widens the grid bounds, so every stored point is inside the window
//! before the next frame is mapped.

use vstd::prelude::*;
use crate::grid::{Grid, point_in_range, to_screen_spec, bounds_updated};
use crate::render::{Point, Color, DrawCmd, DrawCmdModel, cmds_view, origin_spec};

verus! {

/// One drawable edge of a polyline.
#[derive(Clone, Copy, PartialEq, Eq, Structural, Debug)]
pub struct Line {
    pub p1: Point,
    pub p2: Point,
}

/// The drawing command for one segment: both endpoints mapped through the
/// grid's domain-to-screen transform.
pub open spec fn line_draw_spec(l: Line, g: Grid) -> DrawCmdModel {
    DrawCmdModel::Line(to_screen_spec(g, l.p1), to_screen_spec(g, l.p2))
}

/// One series: its accumulated segments and its display color.
pub struct Strip {
    pub color: Color,
    pub lines: Vec<Line>,
}

/// Everything one strip draws: its color, then one line per segment in
/// insertion order.
pub open spec fn strip_draw_spec(s: Strip, g: Grid) -> Seq<DrawCmdModel> {
    seq![DrawCmdModel::SetColor(s.color)] + s.lines@.map_values(|l: Line| line_draw_spec(l, g))
}

impl Line {
    pub fn new(p1: Point, p2: Point) -> (l: Line)
        ensures
            l == (Line { p1, p2 }),
    {
        Line { p1, p2 }
    }

    /// Where the polyline continues from: this segment's end point.
    pub fn last_point(&self) -> (p: Point)
        ensures
            p == self.p2,
    {
        self.p2
    }

    /// Emits the drawing command for this segment.
    pub fn draw(&self, grid: &Grid) -> (cmd: DrawCmd)
        requires
            grid.wf(),
            point_in_range(self.p1),
            point_in_range(self.p2),
        ensures
            cmd@ == line_draw_spec(*self, *grid),
    {
        let a = grid.to_screen(self.p1);
        let b = grid.to_screen(self.p2);
        DrawCmd::Line(a, b)
    }
}

impl Strip {
    /// Well-formedness: the segments form a connected path starting at the
    /// origin, and every stored point is within the data range.
    pub open spec fn wf(&self) -> bool {
        &&& self.lines@.len() > 0 ==> self.lines@[0].p1 == origin_spec()
        &&& forall|i: int|
            0 < i < self.lines@.len() ==> #[trigger] self.lines@[i].p1 == self.lines@[i - 1].p2
        &&& forall|i: int|
            0 <= i < self.lines@.len() ==> point_in_range(#[trigger] self.lines@[i].p1)
                && point_in_range(self.lines@[i].p2)
    }

    /// Where the next segment starts: the last stored point, or the origin
    /// for an empty strip.
    pub open spec fn last_point_spec(&self) -> Point {
        if self.lines@.len() == 0 {
            origin_spec()
        } else {
            self.lines@.last().p2
        }
    }

    pub fn new(color: Color) -> (s: Strip)
        ensures
            s.color == color,
            s.lines@.len() == 0,
            s.wf(),
    {
        Strip { color, lines: Vec::new() }
    }

    /// Appends one data point: a new segment from the series' last point
    /// (or the origin) to `p`, then widens the grid bounds around `p`.
    pub fn add_line(&mut self, p: Point, grid: &mut Grid)
        requires
            old(self).wf(),
            old(grid).wf(),
            point_in_range(p),
        ensures
            final(self).wf(),
            final(self).color == old(self).color,
            final(self).lines@ == old(self).lines@.push(
                Line { p1: old(self).last_point_spec(), p2: p },
            ),
            final(grid).wf(),
            bounds_updated(*old(grid), *final(grid), p),
            final(grid).min.x <= p.x <= final(grid).max.x,
            final(grid).min.y <= p.y <= final(grid).max.y,
    {
        let p1 = if self.lines.len() == 0 {
            Point { x: 0, y: 0 }
        } else {
            self.lines[self.lines.len() - 1].p2
        };
        self.lines.push(Line { p1, p2: p });
        proof {
            let pre = old(self).lines@;
            let post = self.lines@;
            assert forall|i: int| 0 < i < post.len() implies #[trigger] post[i].p1 == post[i
                - 1].p2 by {
                if i < pre.len() {
                    assert(post[i] == pre[i]);
                    assert(post[i - 1] == pre[i - 1]);
                }
            }
            assert forall|i: int|
                0 <= i < post.len() implies point_in_range(#[trigger] post[i].p1)
                && point_in_range(post[i].p2) by {
                if i < pre.len() {
                    assert(post[i] == pre[i]);
                } else if pre.len() > 0 {
                    assert(point_in_range(pre[pre.len() - 1].p1));
                }
            }
        }
        grid.update_bounds(p);
    }

    /// Emits this strip's drawing commands: its color, then one line per
    /// segment in insertion order.
    pub fn draw(&self, grid: &Grid) -> (cmds: Vec<DrawCmd>)
        requires
            self.wf(),
            grid.wf(),
        ensures
            cmds_view(cmds@) == strip_draw_spec(*self, *grid),
    {
        let mut out: Vec<DrawCmd> = Vec::new();
        out.push(DrawCmd::SetColor(self.color));
        let n = self.lines.len();
        let mut i: usize = 0;
        proof {
            assert(cmds_view(out@) =~= seq![DrawCmdModel::SetColor(self.color)]
                + self.lines@.take(0).map_values(|l: Line| line_draw_spec(l, *grid)));
        }
        while i < n
            invariant
                i <= n,
                cmds_view(out@) == seq![DrawCmdModel::SetColor(self.color)]
                    + self.lines@.take(i as int).map_values(|l: Line| line_draw_spec(l, *grid)),
            decreases n - i,
        {
            let cmd = self.lines[i].draw(grid);
            proof {
                let f = |l: Line| line_draw_spec(l, *grid);
                assert(cmds_view(out@.push(cmd)) =~= cmds_view(out@).push(cmd@));
                assert(self.lines@.take(i as int + 1).map_values(f)
                    =~= self.lines@.take(i as int).map_values(f).push(f(self.lines@[i as int])));
                assert(cmds_view(out@.push(cmd)) =~= seq![DrawCmdModel::SetColor(self.color)]
                    + self.lines@.take(i as int + 1).map_values(f));
            }
            out.push(cmd);
            i += 1;
        }
        proof {
            assert(self.lines@.take(n as int) =~= self.lines@);
        }
        out
    }
}

/// Law: for every sequence of points fed to a strip, the segment chain is
/// connected — each segment starts where the previous one ended, and the
/// very first segment starts at the origin `(0, 0)`.
pub proof fn lemma_strip_connected(s: Strip)
    requires
        s.wf(),
    ensures
        s.lines@.len() > 0 ==> s.lines@[0].p1 == origin_spec(),
        forall|i: int|
            0 < i < s.lines@.len() ==> #[trigger] s.lines@[i].p1 == s.lines@[i - 1].p2,
{
}

} // verus!
