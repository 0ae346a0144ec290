use rtgraph::grid::Grid;
use rtgraph::render::{Color, DrawCmd, Point};

const XS: i64 = 1_000_000; // x step of 1.0
const YS: i64 = 5_000_000; // y step of 5.0

fn default_grid() -> Grid {
    Grid::new(500, 250, XS, YS)
}

#[test]
fn new_grid_half_step_window() {
    let g = default_grid();
    let p = g.to_screen(Point { x: 0, y: 0 });
    // The window is (-0.5, -2.5) .. (0.5, 2.5), so the origin sits at the
    // center of the canvas: 250/500 horizontally, 125/250 vertically.
    assert_eq!(p.x.num, 500_000 * 500);
    assert_eq!(p.x.den, 1_000_000);
    assert_eq!(p.y.num, 2_500_000 * 250);
    assert_eq!(p.y.den, 5_000_000);
}

#[test]
fn update_bounds_contains_point_with_margin() {
    let mut g = default_grid();
    g.update_bounds(Point { x: 1_000_000, y: 7_000_000 });
    // x gets a full-step margin, y half a step.
    let p1 = g.to_screen(Point { x: 2_000_000, y: 9_500_000 });
    assert_eq!(p1.x.num, p1.x.den * 500); // right edge: 2.0 maps to width
    assert_eq!(p1.y.num, p1.y.den * 250); // top edge: 9.5 maps to height
    // Feeding a point that keeps its margins inside the window changes
    // nothing.
    let before = g.to_screen(Point { x: 0, y: 0 });
    g.update_bounds(Point { x: 1_000_000, y: 1_000_000 });
    let after = g.to_screen(Point { x: 0, y: 0 });
    assert_eq!(before, after);
}

#[test]
fn bounds_only_grow() {
    let mut g = default_grid();
    g.update_bounds(Point { x: 10_000_000, y: 20_000_000 });
    let wide = g.to_screen(Point { x: 0, y: 0 });
    // A later small sample does not tighten the window back: the spans
    // (the denominators) never shrink.
    g.update_bounds(Point { x: 1_000_000, y: 1_000_000 });
    let still = g.to_screen(Point { x: 0, y: 0 });
    assert_eq!(wide.x.den, still.x.den);
    assert_eq!(wide.y.den, still.y.den);
    g.update_bounds(Point { x: 0, y: 0 });
    let grown = g.to_screen(Point { x: 0, y: 0 });
    assert!(grown.x.den >= still.x.den);
    assert!(grown.y.den >= still.y.den);
}

#[test]
fn to_screen_monotonic_in_x() {
    let g = default_grid();
    let a = g.to_screen(Point { x: -300_000, y: 0 });
    let b = g.to_screen(Point { x: 200_000, y: 0 });
    assert_eq!(a.x.den, b.x.den);
    assert!(a.x.num < b.x.num);
}

#[test]
fn to_screen_repeatable() {
    let g = default_grid();
    let a = g.to_screen(Point { x: 123_456, y: -654_321 });
    let b = g.to_screen(Point { x: 123_456, y: -654_321 });
    assert_eq!(a, b);
}

#[test]
fn round_trip_recovers_point() {
    let mut g = default_grid();
    let p = Point { x: 250_000, y: -1_300_000 };
    g.update_bounds(p);
    let s = g.to_screen(p);
    let back = g.from_screen(s.x, s.y);
    assert_eq!(back, p);
}

#[test]
fn round_trip_after_growth() {
    let mut g = default_grid();
    for i in 0..20i64 {
        g.update_bounds(Point { x: i * 500_000, y: i * 700_000 });
    }
    let p = Point { x: 4_500_000, y: 9_100_000 };
    let s = g.to_screen(p);
    assert_eq!(g.from_screen(s.x, s.y), p);
}

#[test]
fn default_labels_are_four_zeros() {
    let mut g = default_grid();
    g.build_texts();
    // Each axis walks up from zero and down from zero; with the initial
    // half-step window only the zero tick fits, once per walk.
    assert_eq!(g.texts.len(), 4);
    for label in &g.texts {
        assert_eq!(label.text, b"0.00".to_vec());
    }
    // The two x labels sit at the canvas middle, on the bottom edge.
    assert_eq!(g.texts[0].x.num, 500_000 * 500);
    assert_eq!(g.texts[0].x.den, 1_000_000);
    assert_eq!(g.texts[0].y.num, 0);
}

#[test]
fn labels_follow_grown_bounds() {
    let mut g = default_grid();
    g.update_bounds(Point { x: 2_000_000, y: 0 });
    g.build_texts();
    // x grew to [-0.5, 3]: ticks 0,1,2,3 upward, 0 downward; each y walk
    // still fits only the zero tick.
    let texts: Vec<&[u8]> = g.texts.iter().map(|l| l.text.as_slice()).collect();
    let expected: Vec<&[u8]> = vec![
        b"0.00", b"1.00", b"2.00", b"3.00", b"0.00", b"0.00", b"0.00",
    ];
    assert_eq!(texts, expected);
}

#[test]
fn grid_draw_emits_gray_tick_lines() {
    let g = default_grid();
    // The tick color and one tick line per walk (only the zero tick fits
    // the initial window on each axis).
    let cmds = g.draw();
    assert_eq!(cmds.len(), 5);
    assert!(matches!(cmds[0], DrawCmd::SetColor(c) if c == Color { r: 5, g: 5, b: 5 }));
    for cmd in &cmds[1..] {
        assert!(matches!(cmd, DrawCmd::Line(_, _)));
    }
    // The first tick line is vertical: full canvas height at the zero tick.
    match &cmds[1] {
        DrawCmd::Line(a, b) => {
            assert_eq!(a.x, b.x);
            assert_eq!((a.y.num, a.y.den), (0, 1));
            assert_eq!((b.y.num, b.y.den), (250, 1));
        }
        _ => unreachable!(),
    }
}

#[test]
fn grid_labels_are_separate_text_commands() {
    let mut g = default_grid();
    assert_eq!(g.draw_labels().len(), 0);
    g.build_texts();
    // Building labels does not change the grid's own tick commands; the
    // labels come out as text commands of their own.
    assert_eq!(g.draw().len(), 5);
    let label_cmds = g.draw_labels();
    assert_eq!(label_cmds.len(), 4);
    for cmd in &label_cmds {
        match cmd {
            DrawCmd::Text(label) => assert_eq!(label.text, b"0.00".to_vec()),
            _ => panic!("expected a text command"),
        }
    }
}

#[test]
fn label_rebuild_deterministic() {
    let mut g1 = default_grid();
    g1.update_bounds(Point { x: 777_000, y: -3_333_333 });
    g1.build_texts();
    let first: Vec<Vec<u8>> = g1.texts.iter().map(|l| l.text.clone()).collect();
    let pos1: Vec<(i64, i64, i64, i64)> =
        g1.texts.iter().map(|l| (l.x.num, l.x.den, l.y.num, l.y.den)).collect();
    g1.build_texts();
    let second: Vec<Vec<u8>> = g1.texts.iter().map(|l| l.text.clone()).collect();
    let pos2: Vec<(i64, i64, i64, i64)> =
        g1.texts.iter().map(|l| (l.x.num, l.x.den, l.y.num, l.y.den)).collect();
    assert_eq!(first, second);
    assert_eq!(pos1, pos2);
}
