use crate::error::ChartError;
use crate::series::{Sample, Series};
use vstd::arithmetic::div_mod::{
    lemma_div_by_multiple, lemma_div_is_ordered, lemma_div_pos_is_pos,
    lemma_fundamental_div_mod_converse,
};
use vstd::arithmetic::mul::{
    lemma_mul_inequality, lemma_mul_is_commutative, lemma_mul_upper_bound,
};
use vstd::prelude::*;

verus! {

/// Pixel columns reserved on the left for the y-axis gutter.
pub const MARGIN_LEFT: u32 = 40;

/// Pixel columns reserved on the right of the plot area.
pub const MARGIN_RIGHT: u32 = 10;

/// Pixel rows reserved above the plot area.
pub const MARGIN_TOP: u32 = 10;

/// Pixel rows reserved below for the x-axis gutter.
pub const MARGIN_BOTTOM: u32 = 40;

/// Spacing of grid lines and tick marks, in pixels.
pub const GRID_STEP: u32 = 50;

/// Length of a tick mark, in pixels into the gutter.
pub const TICK_LEN: u32 = 3;

/// An RGBA color, one byte per channel.
#[derive(Clone, Copy, Debug, PartialEq, Eq, Structural)]
pub struct Rgba {
    /// Red channel.
    pub r: u8,
    /// Green channel.
    pub g: u8,
    /// Blue channel.
    pub b: u8,
    /// Alpha channel.
    pub a: u8,
}

/// Background fill: white.
pub open spec fn background_color() -> Rgba {
    Rgba { r: 255, g: 255, b: 255, a: 255 }
}

/// Light grid lines inside the plot area.
pub open spec fn grid_color() -> Rgba {
    Rgba { r: 220, g: 220, b: 220, a: 255 }
}

/// Axis lines and tick marks: black.
pub open spec fn axis_color() -> Rgba {
    Rgba { r: 0, g: 0, b: 0, a: 255 }
}

/// The revealed polyline: blue.
pub open spec fn line_color() -> Rgba {
    Rgba { r: 0, g: 0, b: 255, a: 255 }
}

/// The frame is usable only when both margins leave at least one pixel of
/// plot area; in particular a zero width or height is invalid input.
pub open spec fn dims_ok(w: int, h: int) -> bool {
    &&& w > MARGIN_LEFT + MARGIN_RIGHT
    &&& h > MARGIN_TOP + MARGIN_BOTTOM
}

/// Width of the drawable plot area.
pub open spec fn plot_w(w: int) -> int {
    w - MARGIN_LEFT - MARGIN_RIGHT
}

/// Height of the drawable plot area.
pub open spec fn plot_h(h: int) -> int {
    h - MARGIN_TOP - MARGIN_BOTTOM
}

/// Pixel row of the x axis: the bottom row of the plot area, where the
/// data origin sits.
pub open spec fn axis_row(h: int) -> int {
    h - MARGIN_BOTTOM - 1
}

/// Linear map of `v` in `[0, vmax]` onto pixel offsets `[0, extent - 1]`.
/// A degenerate range (`vmax == 0`) collapses the axis to offset zero
/// instead of dividing by zero, and a value beyond `vmax` clamps to the
/// far edge.
pub open spec fn spec_scale(v: int, vmax: int, extent: int) -> int
    recommends
        v >= 0,
        vmax >= 0,
        extent >= 1,
{
    if vmax == 0 {
        0
    } else if (v * (extent - 1)) / vmax > extent - 1 {
        extent - 1
    } else {
        (v * (extent - 1)) / vmax
    }
}

/// Pixel column of sample `i`: the x coordinate mapped into the plot area.
pub open spec fn spec_px(s: Seq<Sample>, i: int, w: int) -> int {
    MARGIN_LEFT + spec_scale(s[i].x as int, s.last().x as int, plot_w(w))
}

/// Pixel row of sample `i`: the y coordinate mapped into the plot area,
/// inverted because pixel rows grow downward while data values grow up.
pub open spec fn spec_py(s: Seq<Sample>, i: int, h: int) -> int {
    MARGIN_TOP + (plot_h(h) - 1) - spec_scale(s[i].y as int, s.last().y as int, plot_h(h))
}

/// A quotient of non-negative values stays within `[0, d]` when the
/// numerator's factor `t` is at most the denominator `n`.
proof fn lemma_frac_bounded(t: int, d: int, n: int)
    requires
        0 <= t <= n,
        0 < n,
        0 <= d,
    ensures
        0 <= (t * d) / n <= d,
{
    lemma_mul_inequality(t, n, d);
    lemma_mul_is_commutative(n, d);
    lemma_div_by_multiple(d, n);
    lemma_div_is_ordered(t * d, n * d, n);
    if t * d > 0 {
        lemma_div_pos_is_pos(t * d, n);
    } else {
        assert(t * d == 0 || t == 0) by (nonlinear_arith)
            requires
                0 <= t,
                0 <= d,
                t * d <= 0,
        ;
        assert((t * d) / n == 0);
    }
}

/// Executable counterpart of [`spec_scale`].
fn scale(v: u64, vmax: u64, extent: u32) -> (r: u32)
    requires
        extent >= 1,
    ensures
        r as int == spec_scale(v as int, vmax as int, extent as int),
        r < extent,
{
    if vmax == 0 {
        0
    } else {
        proof {
            lemma_mul_upper_bound(v as int, u64::MAX as int, (extent - 1) as int, u32::MAX as int);
        }
        let num: u128 = (v as u128) * ((extent - 1) as u128);
        let q: u128 = num / (vmax as u128);
        if q >= (extent - 1) as u128 {
            extent - 1
        } else {
            q as u32
        }
    }
}

/// Integer interpolation from `a` toward `b`: step `t` of `n`. With no
/// steps the start point stands.
pub open spec fn spec_interp(a: int, b: int, t: int, n: int) -> int
    recommends
        0 <= t <= n,
{
    if n == 0 {
        a
    } else if b >= a {
        a + (t * (b - a)) / n
    } else {
        a - (t * (a - b)) / n
    }
}

/// Executable counterpart of [`spec_interp`].
fn interp(a: u32, b: u32, t: u32, n: u32) -> (r: u32)
    requires
        t <= n,
    ensures
        r as int == spec_interp(a as int, b as int, t as int, n as int),
{
    if n == 0 {
        a
    } else if b >= a {
        let d: u64 = (b - a) as u64;
        proof {
            lemma_mul_upper_bound(t as int, u32::MAX as int, d as int, u32::MAX as int);
            lemma_frac_bounded(t as int, d as int, n as int);
        }
        let step: u64 = (t as u64) * d / (n as u64);
        a + (step as u32)
    } else {
        let d: u64 = (a - b) as u64;
        proof {
            lemma_mul_upper_bound(t as int, u32::MAX as int, d as int, u32::MAX as int);
            lemma_frac_bounded(t as int, d as int, n as int);
        }
        let step: u64 = (t as u64) * d / (n as u64);
        a - (step as u32)
    }
}

/// Map sample `i` of a well-formed series to its pixel position.
fn map_point(series: &Series, i: usize, width: u32, height: u32) -> (p: (u32, u32))
    requires
        series.wf(),
        i < series.samples@.len(),
        dims_ok(width as int, height as int),
    ensures
        p.0 as int == spec_px(series.samples@, i as int, width as int),
        p.1 as int == spec_py(series.samples@, i as int, height as int),
        MARGIN_LEFT <= p.0 < width - MARGIN_RIGHT,
        MARGIN_TOP <= p.1 <= axis_row(height as int),
{
    let pw = width - MARGIN_LEFT - MARGIN_RIGHT;
    let ph = height - MARGIN_TOP - MARGIN_BOTTOM;
    let s = series.samples[i];
    let sx = scale(s.x, series.bounds.x_max, pw);
    let sy = scale(s.y, series.bounds.y_max, ph);
    (MARGIN_LEFT + sx, MARGIN_TOP + (ph - 1) - sy)
}

/// Absolute difference.
pub open spec fn abs_diff(a: int, b: int) -> int {
    if a >= b {
        a - b
    } else {
        b - a
    }
}

/// Number of interpolation steps used to draw the segment joining the
/// mapped positions of samples `i` and `i + 1`: one pixel per step along
/// the longer pixel axis.
pub open spec fn seg_steps(s: Seq<Sample>, i: int, w: int, h: int) -> int {
    let dx = abs_diff(spec_px(s, i, w), spec_px(s, i + 1, w));
    let dy = abs_diff(spec_py(s, i, h), spec_py(s, i + 1, h));
    if dx >= dy {
        dx
    } else {
        dy
    }
}

/// Step `t` of the segment joining samples `i` and `i + 1` lands on pixel
/// `(x, y)`.
pub open spec fn seg_hits(s: Seq<Sample>, i: int, w: int, h: int, t: int, x: int, y: int) -> bool {
    let n = seg_steps(s, i, w, h);
    &&& x == spec_interp(spec_px(s, i, w), spec_px(s, i + 1, w), t, n)
    &&& y == spec_interp(spec_py(s, i, h), spec_py(s, i + 1, h), t, n)
}

/// Pixel `(x, y)` lies on the drawn segment joining samples `i` and `i + 1`.
pub open spec fn on_segment(s: Seq<Sample>, i: int, w: int, h: int, x: int, y: int) -> bool {
    exists|t: int| 0 <= t <= seg_steps(s, i, w, h) && #[trigger] seg_hits(s, i, w, h, t, x, y)
}

/// Pixel `(x, y)` lies on some segment of the revealed prefix: a segment
/// joins consecutive samples, so `k` visible samples give `k - 1` segments.
pub open spec fn on_polyline(s: Seq<Sample>, k: int, w: int, h: int, x: int, y: int) -> bool {
    exists|i: int| 0 <= i < k - 1 && #[trigger] on_segment(s, i, w, h, x, y)
}

/// Pixel lies on the y-axis line.
pub open spec fn on_y_axis(h: int, x: int, y: int) -> bool {
    &&& x == MARGIN_LEFT
    &&& MARGIN_TOP <= y <= axis_row(h)
}

/// Pixel lies on the x-axis line.
pub open spec fn on_x_axis(w: int, h: int, x: int, y: int) -> bool {
    &&& y == axis_row(h)
    &&& MARGIN_LEFT <= x < w - MARGIN_RIGHT
}

/// Pixel lies on either axis line.
pub open spec fn on_axis(w: int, h: int, x: int, y: int) -> bool {
    on_y_axis(h, x, y) || on_x_axis(w, h, x, y)
}

/// Pixel lies on a tick mark: short strokes into the gutters, at every
/// grid step along each axis.
pub open spec fn on_tick(w: int, h: int, x: int, y: int) -> bool {
    ||| {
        &&& MARGIN_LEFT <= x < w - MARGIN_RIGHT
        &&& (x - MARGIN_LEFT) % (GRID_STEP as int) == 0
        &&& axis_row(h) < y <= axis_row(h) + TICK_LEN
    }
    ||| {
        &&& MARGIN_TOP <= y <= axis_row(h)
        &&& (axis_row(h) - y) % (GRID_STEP as int) == 0
        &&& MARGIN_LEFT - TICK_LEN <= x < MARGIN_LEFT
    }
}

/// Pixel lies inside the plot area.
pub open spec fn in_plot(w: int, h: int, x: int, y: int) -> bool {
    &&& MARGIN_LEFT <= x < w - MARGIN_RIGHT
    &&& MARGIN_TOP <= y <= axis_row(h)
}

/// Pixel lies on a grid line: every grid step, counted rightward from the
/// y axis and upward from the x axis so that lines stay anchored to the
/// origin.
pub open spec fn on_grid(w: int, h: int, x: int, y: int) -> bool {
    &&& in_plot(w, h, x, y)
    &&& ((x - MARGIN_LEFT) % (GRID_STEP as int) == 0 || (axis_row(h) - y) % (GRID_STEP as int)
        == 0)
}

/// Color of pixel `(x, y)` in a frame of `w x h` pixels showing the first
/// `k` samples of the series. Layering, topmost first: the revealed
/// polyline, the axes and tick marks, the grid, the background.
pub open spec fn spec_pixel_color(s: Seq<Sample>, k: int, w: int, h: int, x: int, y: int) -> Rgba {
    if k >= 2 && on_polyline(s, k, w, h, x, y) {
        line_color()
    } else if on_axis(w, h, x, y) || on_tick(w, h, x, y) {
        axis_color()
    } else if on_grid(w, h, x, y) {
        grid_color()
    } else {
        background_color()
    }
}

/// Walk the interpolation steps of one segment, looking for pixel `(x, y)`.
#[verifier::loop_isolation(false)]
fn on_segment_exec(series: &Series, i: usize, width: u32, height: u32, x: u32, y: u32) -> (r: bool)
    requires
        series.wf(),
        i + 1 < series.samples@.len(),
        dims_ok(width as int, height as int),
    ensures
        r == on_segment(series.samples@, i as int, width as int, height as int, x as int, y as int),
{
    let ghost s = series.samples@;
    let total = series.samples.len();
    assert(i + 1 < total);
    let p0 = map_point(series, i, width, height);
    let p1 = map_point(series, i + 1, width, height);
    let dx = if p0.0 >= p1.0 {
        p0.0 - p1.0
    } else {
        p1.0 - p0.0
    };
    let dy = if p0.1 >= p1.1 {
        p0.1 - p1.1
    } else {
        p1.1 - p0.1
    };
    let n = if dx >= dy {
        dx
    } else {
        dy
    };
    assert(n as int == seg_steps(s, i as int, width as int, height as int));
    let mut t: u32 = 0;
    while t <= n
        invariant
            t <= n + 1,
            forall|u: int|
                0 <= u < t ==> !seg_hits(s, i as int, width as int, height as int, u, x as int, y as int),
        decreases n + 1 - t,
    {
        let qx = interp(p0.0, p1.0, t, n);
        let qy = interp(p0.1, p1.1, t, n);
        if qx == x && qy == y {
            assert(seg_hits(s, i as int, width as int, height as int, t as int, x as int, y as int));
            return true;
        }
        t = t + 1;
    }
    proof {
        if on_segment(s, i as int, width as int, height as int, x as int, y as int) {
            let u = choose|u: int|
                0 <= u <= seg_steps(s, i as int, width as int, height as int) && #[trigger] seg_hits(
                    s,
                    i as int,
                    width as int,
                    height as int,
                    u,
                    x as int,
                    y as int,
                );
            assert(!seg_hits(s, i as int, width as int, height as int, u, x as int, y as int));
        }
    }
    false
}

/// Walk the segments of the revealed prefix, looking for pixel `(x, y)`.
#[verifier::loop_isolation(false)]
fn on_polyline_exec(series: &Series, k: usize, width: u32, height: u32, x: u32, y: u32) -> (r: bool)
    requires
        series.wf(),
        2 <= k <= series.samples@.len(),
        dims_ok(width as int, height as int),
    ensures
        r == on_polyline(
            series.samples@,
            k as int,
            width as int,
            height as int,
            x as int,
            y as int,
        ),
{
    let ghost s = series.samples@;
    let mut i: usize = 0;
    while i < k - 1
        invariant
            i <= k - 1,
            forall|j: int|
                0 <= j < i ==> !on_segment(s, j, width as int, height as int, x as int, y as int),
        decreases k - 1 - i,
    {
        if on_segment_exec(series, i, width, height, x, y) {
            return true;
        }
        i = i + 1;
    }
    proof {
        if on_polyline(s, k as int, width as int, height as int, x as int, y as int) {
            let j = choose|j: int|
                0 <= j < k - 1 && #[trigger] on_segment(
                    s,
                    j,
                    width as int,
                    height as int,
                    x as int,
                    y as int,
                );
            assert(!on_segment(s, j, width as int, height as int, x as int, y as int));
        }
    }
    false
}

/// Decide whether pixel `(x, y)` lies on an axis line.
fn on_axis_exec(width: u32, height: u32, x: u32, y: u32) -> (r: bool)
    requires
        dims_ok(width as int, height as int),
    ensures
        r == on_axis(width as int, height as int, x as int, y as int),
{
    let bottom = height - MARGIN_BOTTOM - 1;
    (x == MARGIN_LEFT && MARGIN_TOP <= y && y <= bottom) || (y == bottom && MARGIN_LEFT <= x && x
        < width - MARGIN_RIGHT)
}

/// Decide whether pixel `(x, y)` lies on a tick mark.
fn on_tick_exec(width: u32, height: u32, x: u32, y: u32) -> (r: bool)
    requires
        dims_ok(width as int, height as int),
    ensures
        r == on_tick(width as int, height as int, x as int, y as int),
{
    let bottom = height - MARGIN_BOTTOM - 1;
    let below = MARGIN_LEFT <= x && x < width - MARGIN_RIGHT && (x - MARGIN_LEFT) % GRID_STEP == 0
        && bottom < y && y <= bottom + TICK_LEN;
    let left = MARGIN_TOP <= y && y <= bottom && (bottom - y) % GRID_STEP == 0 && MARGIN_LEFT
        - TICK_LEN <= x && x < MARGIN_LEFT;
    below || left
}

/// Decide whether pixel `(x, y)` lies on a grid line.
fn on_grid_exec(width: u32, height: u32, x: u32, y: u32) -> (r: bool)
    requires
        dims_ok(width as int, height as int),
    ensures
        r == on_grid(width as int, height as int, x as int, y as int),
{
    let bottom = height - MARGIN_BOTTOM - 1;
    MARGIN_LEFT <= x && x < width - MARGIN_RIGHT && MARGIN_TOP <= y && y <= bottom && ((x
        - MARGIN_LEFT) % GRID_STEP == 0 || (bottom - y) % GRID_STEP == 0)
}

/// Compute the color of one pixel, mirroring [`spec_pixel_color`].
fn pixel_color(series: &Series, k: usize, width: u32, height: u32, x: u32, y: u32) -> (c: Rgba)
    requires
        series.wf(),
        k <= series.samples@.len(),
        dims_ok(width as int, height as int),
    ensures
        c == spec_pixel_color(
            series.samples@,
            k as int,
            width as int,
            height as int,
            x as int,
            y as int,
        ),
{
    if k >= 2 && on_polyline_exec(series, k, width, height, x, y) {
        Rgba { r: 0, g: 0, b: 255, a: 255 }
    } else if on_axis_exec(width, height, x, y) || on_tick_exec(width, height, x, y) {
        Rgba { r: 0, g: 0, b: 0, a: 255 }
    } else if on_grid_exec(width, height, x, y) {
        Rgba { r: 220, g: 220, b: 220, a: 255 }
    } else {
        Rgba { r: 255, g: 255, b: 255, a: 255 }
    }
}

/// Channel `ch` of a color, in RGBA byte order.
pub open spec fn spec_channel(c: Rgba, ch: int) -> u8 {
    if ch == 0 {
        c.r
    } else if ch == 1 {
        c.g
    } else if ch == 2 {
        c.b
    } else {
        c.a
    }
}

/// Byte `j` of the row-major RGBA frame: four bytes per pixel, pixels in
/// row-major order with the origin at the top left.
pub open spec fn spec_frame_byte(s: Seq<Sample>, k: int, w: int, h: int, j: int) -> u8 {
    let p = j / 4;
    let ch = j % 4;
    let x = p % w;
    let y = p / w;
    spec_channel(spec_pixel_color(s, k, w, h, x, y), ch)
}

/// The full frame that a render of the first `k` samples produces.
pub open spec fn spec_frame(s: Seq<Sample>, k: int, w: int, h: int) -> Seq<u8> {
    Seq::new((4 * w * h) as nat, |j: int| spec_frame_byte(s, k, w, h, j))
}

/// Rasterize the first `visible_count` samples of a series into a fresh
/// `width x height` RGBA buffer.
///
/// The buffer is a pure function of the arguments — rendering the same
/// arguments twice gives byte-identical output. Dimensions that leave no
/// plot area (zero included) are invalid input; a visible-count beyond the
/// series length is a caller bug, reported rather than clamped.
#[verifier::loop_isolation(false)]
pub fn render(series: &Series, visible_count: usize, width: u32, height: u32) -> (r: Result<
    Vec<u8>,
    ChartError,
>)
    requires
        series.wf(),
        4 * (width as int) * (height as int) <= usize::MAX as int,
    ensures
        match r {
            Ok(buf) => {
                &&& dims_ok(width as int, height as int)
                &&& visible_count <= series.samples@.len()
                &&& buf@ == spec_frame(
                    series.samples@,
                    visible_count as int,
                    width as int,
                    height as int,
                )
            },
            Err(e) => {
                &&& (!dims_ok(width as int, height as int) || visible_count
                    > series.samples@.len())
                &&& e == (if !dims_ok(width as int, height as int) {
                    ChartError::InvalidInput
                } else {
                    ChartError::ArgumentOutOfRange
                })
            },
        },
{
    if width <= MARGIN_LEFT + MARGIN_RIGHT || height <= MARGIN_TOP + MARGIN_BOTTOM {
        return Err(ChartError::InvalidInput);
    }
    if visible_count > series.samples.len() {
        return Err(ChartError::ArgumentOutOfRange);
    }
    let ghost s = series.samples@;
    let ghost kk = visible_count as int;
    let ghost ww = width as int;
    let ghost hh = height as int;
    let w = width as usize;
    let h = height as usize;
    let mut buf: Vec<u8> = Vec::new();
    let mut y: usize = 0;
    while y < h
        invariant
            y <= h,
            buf@.len() == 4 * ((y as int) * (w as int)),
            forall|j: int| 0 <= j < buf@.len() ==> buf@[j] == spec_frame_byte(s, kk, ww, hh, j),
        decreases h - y,
    {
        let mut x: usize = 0;
        while x < w
            invariant
                x <= w,
                buf@.len() == 4 * ((y as int) * (w as int) + x),
                forall|j: int| 0 <= j < buf@.len() ==> buf@[j] == spec_frame_byte(s, kk, ww, hh, j),
            decreases w - x,
        {
            let c = pixel_color(series, visible_count, width, height, x as u32, y as u32);
            proof {
                let p = (y * w + x) as int;
                lemma_fundamental_div_mod_converse(4 * p, 4, p, 0);
                lemma_fundamental_div_mod_converse(4 * p + 1, 4, p, 1);
                lemma_fundamental_div_mod_converse(4 * p + 2, 4, p, 2);
                lemma_fundamental_div_mod_converse(4 * p + 3, 4, p, 3);
                lemma_fundamental_div_mod_converse(p, ww, y as int, x as int);
            }
            buf.push(c.r);
            buf.push(c.g);
            buf.push(c.b);
            buf.push(c.a);
            x = x + 1;
        }
        proof {
            assert((y as int) * (w as int) + (w as int) == ((y as int) + 1) * (w as int))
                by (nonlinear_arith);
        }
        y = y + 1;
    }
    proof {
        assert(4 * ((h as int) * (w as int)) == 4 * ww * hh) by (nonlinear_arith)
            requires
                (w as int) == ww,
                (h as int) == hh,
        ;
        assert(buf@ =~= spec_frame(s, kk, ww, hh));
    }
    Ok(buf)
}

/// Where pixel `(x, y)` lives in the frame: byte `4 * (y * w + x) + ch`
/// holds channel `ch` of that pixel's color. Together with [`render`]'s
/// contract this pins every byte of a returned buffer to
/// [`spec_pixel_color`].
pub proof fn lemma_frame_pixel(s: Seq<Sample>, k: int, w: int, h: int, x: int, y: int, ch: int)
    requires
        0 <= x < w,
        0 <= y < h,
        0 <= ch < 4,
    ensures
        0 <= 4 * (y * w + x) + ch < spec_frame(s, k, w, h).len(),
        spec_frame(s, k, w, h)[4 * (y * w + x) + ch] == spec_channel(
            spec_pixel_color(s, k, w, h, x, y),
            ch,
        ),
{
    let p = y * w + x;
    assert(0 <= y * w) by (nonlinear_arith)
        requires
            0 <= y,
            0 <= w,
    ;
    lemma_mul_inequality(y, h - 1, w);
    assert((h - 1) * w + w == h * w) by (nonlinear_arith);
    assert(4 * (h * w) == 4 * w * h) by (nonlinear_arith);
    lemma_fundamental_div_mod_converse(4 * p + ch, 4, p, ch);
    lemma_fundamental_div_mod_converse(p, w, y, x);
}

/// Idempotent rendering: the frame is a pure function of the series, the
/// visible-count and the dimensions, so two renders of identical arguments
/// are byte-identical. [`render`] ensures each successful buffer equals
/// [`spec_frame`], from which this is immediate.
pub proof fn lemma_render_deterministic(
    b1: Seq<u8>,
    b2: Seq<u8>,
    s: Seq<Sample>,
    k: int,
    w: int,
    h: int,
)
    requires
        b1 == spec_frame(s, k, w, h),
        b2 == spec_frame(s, k, w, h),
    ensures
        b1 == b2,
{
}

/// Prefix consistency: a pixel shows the polyline color exactly when it
/// lies on a segment joining two consecutive samples of the revealed
/// prefix `0 .. k`. In particular no drawn segment touches a sample at
/// index `k` or beyond, and fewer than two visible samples draw no line.
pub proof fn lemma_prefix_consistency(s: Seq<Sample>, k: int, w: int, h: int, x: int, y: int)
    ensures
        spec_pixel_color(s, k, w, h, x, y) == line_color() <==> (k >= 2 && exists|i: int|
            0 <= i < k - 1 && #[trigger] on_segment(s, i, w, h, x, y)),
{
    assert(axis_color() != line_color());
    assert(grid_color() != line_color());
    assert(background_color() != line_color());
}

/// Degenerate vertical range: when the last sample's `y` is zero, the
/// vertical scale collapses to zero instead of dividing by zero, and every
/// sample maps to the plot's bottom row. ([`render`] succeeds on such a
/// series like on any other; its contract never demands a non-degenerate
/// range.)
pub proof fn lemma_degenerate_axis(s: Seq<Sample>, i: int, h: int)
    requires
        s.len() >= 1,
        s.last().y == 0,
        0 <= i < s.len(),
    ensures
        spec_py(s, i, h) == axis_row(h),
{
}

} // verus!
