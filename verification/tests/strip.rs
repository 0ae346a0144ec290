use rtgraph::grid::Grid;
use rtgraph::line::{Line, Strip};
use rtgraph::render::{Color, DrawCmd, Point};

const XS: i64 = 1_000_000;
const YS: i64 = 5_000_000;

#[test]
fn line_keeps_its_endpoints() {
    let a = Point { x: 1, y: 2 };
    let b = Point { x: 3, y: 4 };
    let line = Line::new(a, b);
    assert_eq!(line.p1, a);
    assert_eq!(line.p2, b);
    assert_eq!(line.last_point(), b);
}

#[test]
fn first_segment_starts_at_origin() {
    let mut grid = Grid::new(500, 250, XS, YS);
    let mut strip = Strip::new(Color { r: 10, g: 0, b: 0 });
    assert_eq!(strip.lines.len(), 0);
    strip.add_line(Point { x: 0, y: 1_000_000 }, &mut grid);
    assert_eq!(strip.lines.len(), 1);
    assert_eq!(strip.lines[0].p1, Point { x: 0, y: 0 });
    assert_eq!(strip.lines[0].p2, Point { x: 0, y: 1_000_000 });
}

#[test]
fn add_line_chains_and_grows_bounds() {
    let mut grid = Grid::new(500, 250, XS, YS);
    let mut strip = Strip::new(Color { r: 0, g: 10, b: 0 });
    strip.add_line(Point { x: 0, y: 1_000_000 }, &mut grid);
    strip.add_line(Point { x: 1_000_000, y: 2_000_000 }, &mut grid);
    assert_eq!(strip.lines[1].p1, strip.lines[0].p2);
    // The grid saw both points: x margin is one full step.
    assert_eq!(grid.max.x, 2_000_000);
    assert_eq!(grid.min.x, -1_000_000);
}

#[test]
fn strip_draw_sets_color_then_draws_each_segment() {
    let mut grid = Grid::new(500, 250, XS, YS);
    let color = Color { r: 0, g: 0, b: 10 };
    let mut strip = Strip::new(color);
    strip.add_line(Point { x: 0, y: 1_000_000 }, &mut grid);
    strip.add_line(Point { x: 1_000_000, y: 500_000 }, &mut grid);
    let cmds = strip.draw(&grid);
    assert_eq!(cmds.len(), 3);
    assert!(matches!(cmds[0], DrawCmd::SetColor(c) if c == color));
    match (&cmds[1], &cmds[2]) {
        (DrawCmd::Line(_, a2), DrawCmd::Line(b1, _)) => {
            // Consecutive segments meet at the same screen position.
            assert_eq!(a2, b1);
        }
        _ => panic!("expected two line commands"),
    }
}

#[test]
fn line_draw_maps_through_grid() {
    let grid = Grid::new(500, 250, XS, YS);
    let line = Line::new(Point { x: 0, y: 0 }, Point { x: 500_000, y: 2_500_000 });
    match line.draw(&grid) {
        DrawCmd::Line(a, b) => {
            assert_eq!(a, grid.to_screen(line.p1));
            assert_eq!(b, grid.to_screen(line.p2));
        }
        _ => panic!("expected a line command"),
    }
}
