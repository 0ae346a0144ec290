use rtgraph::chart::{palette_color, Chart};
use rtgraph::render::{Color, DrawCmd, Point};

const XS: i64 = 1_000_000; // x step of 1.0
const YS: i64 = 5_000_000; // y step of 5.0

fn default_chart() -> Chart {
    Chart::new(500, 250, XS, YS)
}

#[test]
fn two_samples_one_strip_two_segments() {
    // Input "0,1" then "1,2" with default steps.
    let mut chart = default_chart();
    chart.ingest_sample(0, &vec![1_000_000]);
    chart.ingest_sample(1_000_000, &vec![2_000_000]);

    assert_eq!(chart.strips.len(), 1);
    let lines = &chart.strips[0].lines;
    assert_eq!(lines.len(), 2);
    // The chain starts at the origin and stays connected.
    assert_eq!(lines[0].p1, Point { x: 0, y: 0 });
    assert_eq!(lines[0].p2, Point { x: 0, y: 1_000_000 });
    assert_eq!(lines[1].p1, Point { x: 0, y: 1_000_000 });
    assert_eq!(lines[1].p2, Point { x: 1_000_000, y: 2_000_000 });

    // Bounds grew to x in [-1, 2] per the full-step margin rule.
    assert_eq!(chart.grid.min.x, -1_000_000);
    assert_eq!(chart.grid.max.x, 2_000_000);
}

#[test]
fn strip_chain_stays_connected() {
    let mut chart = default_chart();
    let points: [(i64, i64); 4] =
        [(0, 500_000), (1_000_000, -700_000), (2_000_000, 0), (3_000_000, 2_200_000)];
    for (x, v) in points {
        chart.ingest_sample(x, &vec![v]);
    }
    let lines = &chart.strips[0].lines;
    assert_eq!(lines[0].p1, Point { x: 0, y: 0 });
    for i in 1..lines.len() {
        assert_eq!(lines[i].p1, lines[i - 1].p2);
    }
}

#[test]
fn ten_series_palette_wraps() {
    // One sample carrying ten values creates ten strips; the palette has
    // nine entries, so series 9 wraps around to series 0's color.
    let mut chart = default_chart();
    let values: Vec<i64> = (0..10).map(|i| i * 100_000).collect();
    chart.ingest_sample(0, &values);
    assert_eq!(chart.strips.len(), 10);
    assert_eq!(chart.strips[9].color, chart.strips[0].color);
    // The palette itself repeats one color early: entries 0 and 3 match.
    assert_eq!(chart.strips[3].color, chart.strips[0].color);
    // Neighbouring series still differ.
    assert_ne!(chart.strips[1].color, chart.strips[0].color);
    assert_ne!(chart.strips[2].color, chart.strips[1].color);
}

#[test]
fn palette_color_wraps_modulo_nine() {
    for i in 0..30usize {
        assert_eq!(palette_color(i), palette_color(i % 9));
    }
    assert_eq!(palette_color(0), Color { r: 10, g: 10, b: 0 });
    assert_eq!(palette_color(6), Color { r: 10, g: 5, b: 0 });
}

#[test]
fn later_series_keep_their_own_points() {
    let mut chart = default_chart();
    chart.ingest_sample(0, &vec![100_000, 200_000, 300_000]);
    chart.ingest_sample(1_000_000, &vec![400_000]);
    assert_eq!(chart.strips.len(), 3);
    // Only series 0 got a second segment.
    assert_eq!(chart.strips[0].lines.len(), 2);
    assert_eq!(chart.strips[1].lines.len(), 1);
    assert_eq!(chart.strips[2].lines.len(), 1);
    assert_eq!(chart.strips[1].lines[0].p2, Point { x: 0, y: 200_000 });
}

#[test]
fn render_emits_clear_ticks_strips_then_labels() {
    let mut chart = default_chart();
    chart.ingest_sample(0, &vec![1_000_000]);
    chart.grid.build_texts();
    let cmds = chart.render();
    assert!(matches!(cmds[0], DrawCmd::Clear));
    // The grid's tick lines come under one gray color.
    match cmds[1] {
        DrawCmd::SetColor(c) => assert_eq!(c, Color { r: 5, g: 5, b: 5 }),
        _ => panic!("expected the grid color"),
    }
    // The strip's commands follow: its color, then one line per segment.
    let strip_color = chart.strips[0].color;
    let pos = cmds
        .iter()
        .position(|c| matches!(c, DrawCmd::SetColor(sc) if *sc == strip_color))
        .expect("strip color missing");
    assert!(matches!(cmds[pos + 1], DrawCmd::Line(_, _)));
    // Every label comes after every strip, at the very end of the frame.
    let label_count = chart.grid.texts.len();
    assert!(label_count > 0);
    assert_eq!(cmds.len(), pos + 2 + label_count);
    for cmd in &cmds[pos + 2..] {
        assert!(matches!(cmd, DrawCmd::Text(_)));
    }
}
