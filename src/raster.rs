use vstd::prelude::*;
use vstd::arithmetic::div_mod::lemma_fundamental_div_mod;
use vstd::arithmetic::div_mod::lemma_fundamental_div_mod_converse;
use crate::point::Point;

verus! {

pub open spec fn abs(v: int) -> int {
    if v < 0 {
        -v
    } else {
        v
    }
}

/// Horizontal extent of the segment from `a` to `b`, in pixels.
pub open spec fn span_x(a: Point, b: Point) -> int {
    abs(b.x - a.x)
}

/// Vertical extent of the segment from `a` to `b`, in pixels.
pub open spec fn span_y(a: Point, b: Point) -> int {
    abs(b.y - a.y)
}

/// Horizontal stepping direction: towards `b`, and leftwards when both share a column.
pub open spec fn dir_x(a: Point, b: Point) -> int {
    if a.x < b.x {
        1
    } else {
        -1
    }
}

/// Vertical stepping direction: towards `b`, or none on a flat segment.
pub open spec fn dir_y(a: Point, b: Point) -> int {
    if a.y < b.y {
        1
    } else if a.y == b.y {
        0
    } else {
        -1
    }
}

/// Number of pixels plotted per column while the run stays within the
/// segment's vertical bounds: the slope rounded up; one on a flat segment;
/// the whole vertical extent on a vertical segment.
pub open spec fn run_length(a: Point, b: Point) -> int {
    let dx = span_x(a, b);
    let dy = span_y(a, b);
    if dx == 0 {
        dy + 1
    } else if dy == 0 {
        1
    } else {
        (dy + dx - 1) / dx
    }
}

/// Column, counted in steps from `a.x`, of the pixel plotted `n`-th.
/// Up to the pixel that reaches `b.y` the columns fill with `run_length`
/// pixels each; every later pixel has a column of its own.
pub open spec fn pixel_column(a: Point, b: Point, n: int) -> int {
    let dy = span_y(a, b);
    let k = run_length(a, b);
    if n <= dy {
        n / k
    } else {
        dy / k + (n - dy)
    }
}

/// Index of the first pixel plotted in column `c`.
pub open spec fn column_start(a: Point, b: Point, c: int) -> int {
    let dy = span_y(a, b);
    let k = run_length(a, b);
    if c <= dy / k {
        c * k
    } else {
        dy + c - dy / k
    }
}

/// Number of pixels plotted for the segment from `a` to `b`.
pub open spec fn line_len(a: Point, b: Point) -> int {
    span_y(a, b) + 1 + span_x(a, b) - span_y(a, b) / run_length(a, b)
}

/// Narrowing of a screen coordinate to `i16`, saturating at the bounds.
pub open spec fn clamp_i16(v: int) -> int {
    if v < i16::MIN {
        i16::MIN as int
    } else if v > i16::MAX {
        i16::MAX as int
    } else {
        v
    }
}

/// The `n`-th plotted pixel: the vertical accumulator moves one pixel per
/// plot, the column as `pixel_column` says.
pub open spec fn line_pixel(a: Point, b: Point, n: int) -> Point {
    Point {
        x: (a.x + pixel_column(a, b, n) * dir_x(a, b)) as i16,
        y: clamp_i16(a.y + n * dir_y(a, b)) as i16,
    }
}

/// The pixel at column `x` and row `y`.
pub open spec fn point_at(x: i16, y: int) -> Point {
    Point { x: x, y: y as i16 }
}

/// The pixels plotted for the segment from `a` to `b`, in plotting order.
pub open spec fn line_pixels(a: Point, b: Point) -> Seq<Point> {
    Seq::new(line_len(a, b) as nat, |n: int| line_pixel(a, b, n))
}

proof fn lemma_run_length(a: Point, b: Point)
    ensures
        run_length(a, b) >= 1,
        span_y(a, b) / run_length(a, b) <= span_x(a, b),
        span_y(a, b) / run_length(a, b) >= 0,
        (span_y(a, b) / run_length(a, b)) * run_length(a, b) <= span_y(a, b),
        span_y(a, b) < (span_y(a, b) / run_length(a, b) + 1) * run_length(a, b),
        span_x(a, b) == 0 ==> span_y(a, b) / run_length(a, b) == 0,
{
    let dx = span_x(a, b);
    let dy = span_y(a, b);
    let k = run_length(a, b);
    if dx == 0 {
        lemma_fundamental_div_mod_converse(dy, k, 0, dy);
    } else if dy == 0 {
        lemma_fundamental_div_mod_converse(dy, k, 0, 0);
    } else {
        lemma_fundamental_div_mod(dy + dx - 1, dx);
        let r = (dy + dx - 1) % dx;
        assert(0 <= r < dx);
        assert(k >= 1) by (nonlinear_arith)
            requires
                dx * k + r == dy + dx - 1,
                r < dx,
                dy >= 1,
                dx >= 1,
        ;
    }
    lemma_fundamental_div_mod(dy, k);
    let q = dy / k;
    let m = dy % k;
    assert(0 <= m < k);
    assert(q * k <= dy && dy < (q + 1) * k) by (nonlinear_arith)
        requires
            k * q + m == dy,
            0 <= m < k,
    ;
    assert(q >= 0) by (nonlinear_arith)
        requires
            k * q + m == dy,
            0 <= m < k,
            dy >= 0,
    ;
    if dx > 0 {
        assert(k * dx >= dy) by {
            if dy > 0 {
                lemma_fundamental_div_mod(dy + dx - 1, dx);
                let r = (dy + dx - 1) % dx;
                assert(k * dx >= dy) by (nonlinear_arith)
                    requires
                        dx * k + r == dy + dx - 1,
                        r < dx,
                ;
            }
        }
        assert(q <= dx) by (nonlinear_arith)
            requires
                q * k <= dy,
                k * dx >= dy,
                k >= 1,
                dy >= 0,
        ;
    }
}

/// Pixels from `column_start(c)` up to `column_start(c + 1)` all lie in column `c`.
proof fn lemma_column(a: Point, b: Point, c: int, n: int)
    requires
        0 <= c,
        column_start(a, b, c) <= n < column_start(a, b, c + 1),
    ensures
        pixel_column(a, b, n) == c,
{
    lemma_run_length(a, b);
    let dy = span_y(a, b);
    let k = run_length(a, b);
    let q = dy / k;
    if c < q {
        assert((c + 1) * k <= q * k) by (nonlinear_arith)
            requires
                c + 1 <= q,
                k >= 1,
        ;
        assert(c * k + k == (c + 1) * k) by (nonlinear_arith);
        lemma_fundamental_div_mod_converse(n, k, c, n - c * k);
    } else if c == q {
        assert(c * k + k == (c + 1) * k) by (nonlinear_arith);
        lemma_fundamental_div_mod_converse(n, k, c, n - c * k);
    }
}

/// The first pixel plotted is `a`. The last endpoint `b` is plotted as well
/// when the segment is vertical, or when its vertical extent is a whole
/// multiple of its horizontal extent (flat segments included).
pub proof fn lemma_line_ends(a: Point, b: Point)
    ensures
        line_len(a, b) >= 1,
        line_pixels(a, b)[0] == a,
        span_x(a, b) == 0 || span_y(a, b) % span_x(a, b) == 0 ==> line_pixels(a, b).contains(b),
{
    lemma_run_length(a, b);
    let dx = span_x(a, b);
    let dy = span_y(a, b);
    let k = run_length(a, b);
    lemma_fundamental_div_mod_converse(0, k, 0, 0);
    assert(line_pixels(a, b)[0] == a);
    if dx == 0 {
        assert(line_pixels(a, b)[dy] == b);
    } else if dy == 0 {
        assert(pixel_column(a, b, dx) == dx);
        assert(dx * dir_x(a, b) == b.x - a.x);
        assert(line_pixels(a, b)[dx] == b);
    } else if dy % dx == 0 {
        lemma_fundamental_div_mod(dy, dx);
        let t = dy / dx;
        assert(t >= 1) by (nonlinear_arith)
            requires
                dy == dx * t,
                dy >= 1,
                dx >= 1,
        ;
        assert(dy + dx - 1 == t * dx + (dx - 1)) by (nonlinear_arith)
            requires
                dy == dx * t,
        ;
        lemma_fundamental_div_mod_converse(dy + dx - 1, dx, t, dx - 1);
        assert(k == t);
        assert(dy == dx * t + 0);
        lemma_fundamental_div_mod_converse(dy, t, dx, 0);
        assert(pixel_column(a, b, dy) == dx);
        assert(dx * dir_x(a, b) == b.x - a.x);
        assert(dy * dir_y(a, b) == b.y - a.y);
        assert(line_pixels(a, b)[dy] == b);
    }
}

/// A vertical segment plots one pixel per row from `a.y` to `b.y`, all in
/// the segment's column: a contiguous run covering every row between the
/// two ends.
pub proof fn lemma_vertical_run(a: Point, b: Point)
    requires
        a.x == b.x,
    ensures
        line_len(a, b) == span_y(a, b) + 1,
        forall|n: int|
            0 <= n < line_len(a, b) ==> #[trigger] line_pixels(a, b)[n] == point_at(
                a.x,
                a.y + n * dir_y(a, b),
            ),
        forall|y: int|
            (a.y <= y <= b.y || b.y <= y <= a.y) ==> line_pixels(a, b).contains(
                #[trigger] point_at(a.x, y),
            ),
{
    lemma_run_length(a, b);
    let dy = span_y(a, b);
    let k = run_length(a, b);
    assert forall|n: int| 0 <= n < line_len(a, b) implies #[trigger] line_pixels(a, b)[n]
        == point_at(a.x, a.y + n * dir_y(a, b)) by {
        lemma_fundamental_div_mod_converse(n, k, 0, n);
        assert(n * dir_y(a, b) == if a.y < b.y { n } else if a.y == b.y { 0 } else { -n });
    }
    assert forall|y: int| (a.y <= y <= b.y || b.y <= y <= a.y) implies line_pixels(a, b).contains(
        #[trigger] point_at(a.x, y),
    ) by {
        let n = abs(y - a.y);
        assert(n * dir_y(a, b) == y - a.y);
        assert(line_pixels(a, b)[n] == point_at(a.x, y));
    }
}

/// Saturating narrowing of a screen coordinate to `i16`.
fn clamp_to_i16(v: i32) -> (r: i16)
    ensures
        r as int == clamp_i16(v as int),
{
    if v < i16::MIN as i32 {
        i16::MIN
    } else if v > i16::MAX as i32 {
        i16::MAX
    } else {
        v as i16
    }
}

/// Rasterizes the segment from `a` to `b` by incremental stepping: the
/// cursor walks column by column from `a.x` towards `b.x`; in each column
/// the vertical accumulator, starting at `a.y`, plots and moves one pixel
/// towards `b.y` up to `run_length` times, stopping early once it leaves the
/// segment's vertical bounds. A vertical segment is one column holding the
/// whole run from `a.y` to `b.y`.
pub fn draw_line(a: &Point, b: &Point) -> (r: Vec<Point>)
    ensures
        r@ == line_pixels(*a, *b),
{
    let ax = a.x as i32;
    let ay = a.y as i32;
    let bx = b.x as i32;
    let by = b.y as i32;
    let x_min: i32 = if ax < bx { ax } else { bx };
    let x_max: i32 = if ax < bx { bx } else { ax };
    let y_min: i32 = if ay < by { ay } else { by };
    let y_max: i32 = if ay < by { by } else { ay };
    let dx: i32 = x_max - x_min;
    let dy: i32 = y_max - y_min;
    let y_dir: i32 = if ay < by { 1 } else if ay == by { 0 } else { -1 };
    let x_dir: i32 = if ax < bx { 1 } else { -1 };
    let run: i32 = if dx == 0 {
        dy + 1
    } else if dy == 0 {
        1
    } else {
        (dy + dx - 1) / dx
    };
    let ghost pa = *a;
    let ghost pb = *b;
    proof {
        lemma_run_length(pa, pb);
    }
    assert(dx == span_x(pa, pb) && dy == span_y(pa, pb) && run == run_length(pa, pb));
    let ghost q = dy / run;
    let ghost total = line_len(pa, pb);
    let mut out: Vec<Point> = Vec::new();
    let mut x: i32 = ax;
    let mut y: i32 = ay;
    let ghost mut c: int = 0;
    while x_min <= x && x <= x_max
        invariant
            0 <= c <= dx + 1,
            x_dir == 1 && x == ax + c || x_dir == -1 && x == ax - c,
            out@.len() == column_start(pa, pb, c),
            y_dir == 1 && y == ay + out@.len() || y_dir == -1 && y == ay - out@.len() || y_dir == 0 && y == ay,
            forall|i: int| 0 <= i < out@.len() ==> out@[i] == line_pixel(pa, pb, i),
            dx == span_x(pa, pb),
            dy == span_y(pa, pb),
            run == run_length(pa, pb),
            y_dir == dir_y(pa, pb),
            x_dir == dir_x(pa, pb),
            q == dy / run,
            run >= 1,
            q <= dx,
            q * run <= dy,
            dy < (q + 1) * run,
            total == line_len(pa, pb),
            x_min == ax || x_min == bx,
            x_max == ax || x_max == bx,
            x_max - x_min == dx,
            y_max - y_min == dy,
            y_min == ay || y_min == by,
            y_max == ay || y_max == by,
            x_min <= ax <= x_max,
            y_min <= ay <= y_max,
            dx == 0 ==> q == 0,
            dx <= 65535,
            dy <= 65535,
            -1 <= y_dir <= 1,
            -32768 <= ay <= 32767,
            -32768 <= ax <= 32767,
            -32768 <= x_min,
            x_max <= 32767,
            y_dir == 1 ==> y_min == ay && y_max == ay + dy,
            y_dir == -1 ==> y_max == ay && y_min == ay - dy,
            y_dir == 0 ==> dy == 0,
            ax == pa.x && ay == pa.y && bx == pb.x && by == pb.y,
        decreases dx + 1 - c,
    {
        assert(c <= dx);
        assert(column_start(pa, pb, c) <= total) by {
            assert(q * run + run == (q + 1) * run) by (nonlinear_arith);
            if c <= q {
                assert(c * run <= q * run) by (nonlinear_arith)
                    requires
                        c <= q,
                        run >= 1,
                ;
            }
        }
        let ghost start = out@.len() as int;
        let ghost next = column_start(pa, pb, c + 1);
        assert((c < q ==> next == start + run) && (c == q ==> next == dy + 1)) by {
            assert(c * run + run == (c + 1) * run) by (nonlinear_arith);
        }
        assert(c < q ==> start + run <= dy) by {
            assert(c * run + run == (c + 1) * run) by (nonlinear_arith);
            assert(c < q ==> (c + 1) * run <= q * run) by (nonlinear_arith)
                requires
                    run >= 1,
            ;
        }
        assert(c == q ==> start <= dy && dy + 1 <= start + run) by {
            assert(c * run + run == (c + 1) * run) by (nonlinear_arith);
        }
        assert(c > q ==> start > dy && next == start + 1);
        assert(dy == 0 ==> run == 1);
        let mut t: i32 = 0;
        while t < run
            invariant_except_break
                0 <= t <= run,
                out@.len() == start + t,
                out@.len() < next || t == run,
                out@.len() > start && y_dir != 0 ==> out@.len() <= dy,
            invariant
                out@.len() <= next,
                y_dir == 1 && y == ay + out@.len() || y_dir == -1 && y == ay - out@.len() || y_dir == 0 && y == ay,
                forall|i: int| 0 <= i < out@.len() ==> out@[i] == line_pixel(pa, pb, i),
                x_dir == 1 && x == ax + c || x_dir == -1 && x == ax - c,
                0 <= c <= dx,
                start == column_start(pa, pb, c),
                next == column_start(pa, pb, c + 1),
                start <= total,
                c < q ==> next == start + run,
                c == q ==> next == dy + 1,
                y_dir == 1 ==> y_min == ay && y_max == ay + dy,
                y_dir == -1 ==> y_max == ay && y_min == ay - dy,
                y_dir == 0 ==> dy == 0,
                ax == pa.x && ay == pa.y && bx == pb.x && by == pb.y,
                c < q ==> start + run <= dy,
                c == q ==> start <= dy && dy + 1 <= start + run,
                c > q ==> start > dy && next == start + 1,
                dy == 0 ==> run == 1,
                dx == span_x(pa, pb),
                dy == span_y(pa, pb),
                run == run_length(pa, pb),
                y_dir == dir_y(pa, pb),
                x_dir == dir_x(pa, pb),
                q == dy / run,
                run >= 1,
                q <= dx,
                x_max - x_min == dx,
                y_max - y_min == dy,
                y_min == ay || y_min == by,
                y_max == ay || y_max == by,
                y_min <= ay <= y_max,
                x_min <= ax <= x_max,
                total == line_len(pa, pb),
                dx == 0 ==> q == 0,
                dx <= 65535,
                dy <= 65535,
                -1 <= y_dir <= 1,
                -32768 <= ay <= 32767,
                x_min <= x <= x_max,
                -32768 <= x_min,
                x_max <= 32767,
            ensures
                out@.len() == next,
            decreases run - t,
        {
            let ghost n = out@.len() as int;
            proof {
                lemma_column(pa, pb, c, n);
            }
            assert(n < total) by {
                assert(q * run + run == (q + 1) * run) by (nonlinear_arith);
            }
            assert(-200000 <= n * y_dir <= 200000) by (nonlinear_arith)
                requires
                    -1 <= y_dir <= 1,
                    0 <= n <= total,
                    total <= 140000,
            ;
            assert(n * y_dir == if y_dir == 1 { n } else if y_dir == -1 { -n } else { 0 }) by {
                if y_dir == 0 {
                    assert(n * 0 == 0);
                }
            }
            assert(c * x_dir == if x_dir == 1 { c } else { -c });
            t += 1;
            let p = Point::new(x as i16, clamp_to_i16(y));
            assert(p == line_pixel(pa, pb, n));
            out.push(p);
            y += y_dir;
            if y > y_max || y < y_min {
                assert(out@.len() == next);
                break;
            }
        }
        x += x_dir;
        proof {
            c = c + 1;
        }
    }
    assert(c == dx + 1);
    assert(out@ =~= line_pixels(pa, pb));
    out
}

} // verus!
