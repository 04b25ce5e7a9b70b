use animated_graph::error::ChartError;
use animated_graph::raster::{
    render, GRID_STEP, MARGIN_BOTTOM, MARGIN_LEFT, MARGIN_RIGHT, MARGIN_TOP, TICK_LEN,
};
use animated_graph::scheduler::advance;
use animated_graph::series::{Sample, Series};

const LINE: [u8; 4] = [0, 0, 255, 255];
const AXIS: [u8; 4] = [0, 0, 0, 255];
const GRID: [u8; 4] = [220, 220, 220, 255];
const BACKGROUND: [u8; 4] = [255, 255, 255, 255];

fn sample(x: u64, y: u64) -> Sample {
    Sample { x, y }
}

fn pixel(buf: &[u8], w: u32, x: u32, y: u32) -> [u8; 4] {
    let base = ((y * w + x) * 4) as usize;
    [buf[base], buf[base + 1], buf[base + 2], buf[base + 3]]
}

/// The library's coordinate mapping, recomputed independently: a linear map
/// of [0, vmax] onto pixel offsets [0, extent - 1], degenerate range
/// collapsed, overshoot clamped to the far edge.
fn expected_scale(v: u64, vmax: u64, extent: u32) -> u32 {
    if vmax == 0 {
        0
    } else {
        let q = v as u128 * (extent as u128 - 1) / vmax as u128;
        if q >= extent as u128 - 1 {
            extent - 1
        } else {
            q as u32
        }
    }
}

fn expected_point(s: &[Sample], i: usize, w: u32, h: u32) -> (u32, u32) {
    let pw = w - MARGIN_LEFT - MARGIN_RIGHT;
    let ph = h - MARGIN_TOP - MARGIN_BOTTOM;
    let last = s[s.len() - 1];
    let sx = expected_scale(s[i].x, last.x, pw);
    let sy = expected_scale(s[i].y, last.y, ph);
    (MARGIN_LEFT + sx, MARGIN_TOP + (ph - 1) - sy)
}

/// The pixels of the drawn segment joining samples i and i + 1: one
/// interpolation step per pixel along the longer axis.
fn expected_segment(s: &[Sample], i: usize, w: u32, h: u32) -> Vec<(u32, u32)> {
    let (x0, y0) = expected_point(s, i, w, h);
    let (x1, y1) = expected_point(s, i + 1, w, h);
    let dx = x0.abs_diff(x1);
    let dy = y0.abs_diff(y1);
    let n = dx.max(dy);
    let interp = |a: u32, b: u32, t: u32| -> u32 {
        if n == 0 {
            a
        } else if b >= a {
            a + (t as u64 * (b - a) as u64 / n as u64) as u32
        } else {
            a - (t as u64 * (a - b) as u64 / n as u64) as u32
        }
    };
    (0..=n).map(|t| (interp(x0, x1, t), interp(y0, y1, t))).collect()
}

fn demo_series() -> Series {
    // x: 0, 10, 20, 30; y: 0.0, 1.0, 4.0, 9.0 in fixed-point thousandths.
    Series::new(vec![
        sample(0, 0),
        sample(10, 1000),
        sample(20, 4000),
        sample(30, 9000),
    ])
    .unwrap()
}

#[test]
fn empty_sample_list_is_invalid_input() {
    assert_eq!(Series::new(vec![]).unwrap_err(), ChartError::InvalidInput);
}

#[test]
fn bounds_come_from_last_sample() {
    let series = demo_series();
    assert_eq!(series.bounds.x_min, 0);
    assert_eq!(series.bounds.x_max, 30);
    assert_eq!(series.bounds.y_min, 0);
    assert_eq!(series.bounds.y_max, 9000);
}

#[test]
fn render_is_idempotent() {
    let series = demo_series();
    let first = render(&series, 3, 120, 90).unwrap();
    let second = render(&series, 3, 120, 90).unwrap();
    assert_eq!(first, second);
}

#[test]
fn buffer_is_rgba_sized() {
    let series = demo_series();
    let buf = render(&series, 4, 64, 80).unwrap();
    assert_eq!(buf.len(), 64 * 80 * 4);
}

#[test]
fn oversized_visible_count_is_rejected() {
    let series = demo_series();
    assert_eq!(
        render(&series, 5, 64, 80).unwrap_err(),
        ChartError::ArgumentOutOfRange
    );
}

#[test]
fn zero_dimensions_are_invalid_input() {
    let series = demo_series();
    assert_eq!(render(&series, 2, 0, 0).unwrap_err(), ChartError::InvalidInput);
    assert_eq!(render(&series, 2, 0, 80).unwrap_err(), ChartError::InvalidInput);
    assert_eq!(render(&series, 2, 64, 0).unwrap_err(), ChartError::InvalidInput);
}

#[test]
fn dimensions_swallowed_by_margins_are_invalid_input() {
    let series = demo_series();
    let too_narrow = MARGIN_LEFT + MARGIN_RIGHT;
    let too_short = MARGIN_TOP + MARGIN_BOTTOM;
    assert_eq!(
        render(&series, 2, too_narrow, 80).unwrap_err(),
        ChartError::InvalidInput
    );
    assert_eq!(
        render(&series, 2, 64, too_short).unwrap_err(),
        ChartError::InvalidInput
    );
}

#[test]
fn fewer_than_two_visible_samples_draw_no_line() {
    let series = demo_series();
    for k in [0u32, 1] {
        let buf = render(&series, k as usize, 64, 80).unwrap();
        for y in 0..80 {
            for x in 0..64 {
                assert_ne!(pixel(&buf, 64, x, y), LINE);
            }
        }
    }
}

#[test]
fn midway_frame_draws_exactly_the_first_segment() {
    // The end-to-end scenario: four samples revealed over four seconds.
    // Two seconds in, two samples are visible and the frame holds exactly
    // one line segment, the one joining the mappings of samples 0 and 1.
    let series = demo_series();
    let visible = advance(4, 2000, 4000).unwrap();
    assert_eq!(visible, 2);

    let (w, h) = (64u32, 80u32);
    let buf = render(&series, visible, w, h).unwrap();

    let data = [sample(0, 0), sample(10, 1000), sample(20, 4000), sample(30, 9000)];
    let segment = expected_segment(&data, 0, w, h);
    for &(x, y) in &segment {
        assert_eq!(pixel(&buf, w, x, y), LINE, "missing line pixel at ({x}, {y})");
    }
    for y in 0..h {
        for x in 0..w {
            if pixel(&buf, w, x, y) == LINE {
                assert!(
                    segment.contains(&(x, y)),
                    "stray line pixel at ({x}, {y})"
                );
            }
        }
    }

    // No drawn pixel touches the mappings of the unrevealed samples.
    let p2 = expected_point(&data, 2, w, h);
    let p3 = expected_point(&data, 3, w, h);
    assert_ne!(pixel(&buf, w, p2.0, p2.1), LINE);
    assert_ne!(pixel(&buf, w, p3.0, p3.1), LINE);

    // Axis bounds stay fixed at the full series the whole animation.
    assert_eq!(series.bounds.x_max, 30);
    assert_eq!(series.bounds.y_max, 9000);
}

#[test]
fn fully_revealed_frame_draws_every_segment() {
    let series = demo_series();
    let (w, h) = (64u32, 80u32);
    let buf = render(&series, 4, w, h).unwrap();
    let data = [sample(0, 0), sample(10, 1000), sample(20, 4000), sample(30, 9000)];
    for i in 0..3 {
        for &(x, y) in &expected_segment(&data, i, w, h) {
            assert_eq!(pixel(&buf, w, x, y), LINE);
        }
    }
}

#[test]
fn degenerate_vertical_range_renders_flat() {
    // The last sample's y is zero, so the vertical scale collapses and the
    // whole line sits on the plot's bottom row; nothing divides by zero.
    let series = Series::new(vec![sample(0, 0), sample(10, 0), sample(20, 0)]).unwrap();
    let (w, h) = (64u32, 80u32);
    let buf = render(&series, 3, w, h).unwrap();
    let bottom = h - MARGIN_BOTTOM - 1;
    let mut line_pixels = 0;
    for y in 0..h {
        for x in 0..w {
            if pixel(&buf, w, x, y) == LINE {
                assert_eq!(y, bottom, "line pixel off the bottom row at ({x}, {y})");
                line_pixels += 1;
            }
        }
    }
    assert!(line_pixels > 0);
}

#[test]
fn frame_decoration_layers() {
    let series = demo_series();
    let (w, h) = (120u32, 120u32);
    let buf = render(&series, 0, w, h).unwrap();
    let bottom = h - MARGIN_BOTTOM - 1;

    // Corners of the gutter stay background.
    assert_eq!(pixel(&buf, w, 0, 0), BACKGROUND);
    assert_eq!(pixel(&buf, w, w - 1, h - 1), BACKGROUND);
    // Axis lines are black.
    assert_eq!(pixel(&buf, w, MARGIN_LEFT, MARGIN_TOP), AXIS);
    assert_eq!(pixel(&buf, w, MARGIN_LEFT, bottom), AXIS);
    assert_eq!(pixel(&buf, w, w - MARGIN_RIGHT - 1, bottom), AXIS);
    // A grid line one step right of the y axis, off any grid row.
    assert_eq!(pixel(&buf, w, MARGIN_LEFT + GRID_STEP, MARGIN_TOP + 5), GRID);
    // Tick marks reach into the gutters.
    assert_eq!(pixel(&buf, w, MARGIN_LEFT + GRID_STEP, bottom + TICK_LEN), AXIS);
    assert_eq!(pixel(&buf, w, MARGIN_LEFT - TICK_LEN, bottom), AXIS);
}
