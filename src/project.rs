use vstd::prelude::*;
use crate::point::Point;
use crate::raster::line_pixels;
use crate::raster::draw_line;
use crate::raster::lemma_line_ends;
use crate::raster::span_x;
use crate::raster::span_y;
use crate::raster::abs;
use vstd::arithmetic::div_mod::lemma_mod_multiples_basic;

verus! {

/// Every row holds as many cells as the grid has rows.
pub open spec fn is_square(m: Seq<Vec<i16>>) -> bool {
    forall|r: int| 0 <= r < m.len() ==> #[trigger] m[r]@.len() == m.len()
}

/// Screen column of the first cell of the first row.
pub open spec fn x_origin(rows: int, height_step: int, window_height: int) -> int {
    (window_height - rows * height_step - 10) / 2
}

/// Screen row of the first cell of the first row, before elevation.
pub open spec fn y_origin(window_height: int) -> int {
    window_height / 2 + 5
}

/// Screen column of cell `(r, c)`: each row starts one step right of the
/// previous one, each column one step right of the previous one.
pub open spec fn cell_x(m: Seq<Vec<i16>>, ws: int, hs: int, wh: int, r: int, c: int) -> int {
    x_origin(m.len() as int, hs, wh) + r * ws + c * ws
}

/// Screen row of cell `(r, c)`: each row starts one step above the previous
/// one, each column lies one step below the previous one, and the elevation
/// lifts the point by that many steps.
pub open spec fn cell_y(m: Seq<Vec<i16>>, ws: int, hs: int, wh: int, r: int, c: int) -> int {
    y_origin(wh) - r * hs + c * hs - m[r]@[c] * hs
}

pub open spec fn in_i16(v: int) -> bool {
    i16::MIN <= v <= i16::MAX
}

/// Cell `(r, c)` projects to a point with `i16` coordinates.
pub open spec fn cell_fits(m: Seq<Vec<i16>>, ws: int, hs: int, wh: int, r: int, c: int) -> bool {
    in_i16(cell_x(m, ws, hs, wh, r, c)) && in_i16(cell_y(m, ws, hs, wh, r, c))
}

/// Every cell of the grid projects to a point with `i16` coordinates.
pub open spec fn projection_fits(m: Seq<Vec<i16>>, ws: int, hs: int, wh: int) -> bool {
    forall|r: int, c: int|
        0 <= r < m.len() && 0 <= c < m[r]@.len() ==> #[trigger] cell_fits(m, ws, hs, wh, r, c)
}

/// The projected point of cell `(r, c)`.
pub open spec fn cell_point(m: Seq<Vec<i16>>, ws: int, hs: int, wh: int, r: int, c: int) -> Point {
    Point { x: cell_x(m, ws, hs, wh, r, c) as i16, y: cell_y(m, ws, hs, wh, r, c) as i16 }
}

/// The projected points, row by row.
pub open spec fn projection(m: Seq<Vec<i16>>, ws: int, hs: int, wh: int) -> Seq<Seq<Point>> {
    Seq::new(
        m.len(),
        |r: int| Seq::new(m[r]@.len(), |c: int| cell_point(m, ws, hs, wh, r, c)),
    )
}

/// Pixels of the edges that end at point `(r, c)`: first the edge from the
/// previous point of the row, then the edge from the same column of the
/// previous row.
pub open spec fn edge_pixels(p: Seq<Seq<Point>>, r: int, c: int) -> Seq<Point> {
    let along = if c > 0 {
        line_pixels(p[r][c - 1], p[r][c])
    } else {
        Seq::empty()
    };
    let across = if r > 0 {
        line_pixels(p[r - 1][c], p[r][c])
    } else {
        Seq::empty()
    };
    along + across
}

/// Pixels of the edges ending at the first `n` points of row `r`.
pub open spec fn row_pixels(p: Seq<Seq<Point>>, r: int, n: int) -> Seq<Point>
    decreases n,
{
    if n <= 0 {
        Seq::empty()
    } else {
        row_pixels(p, r, n - 1) + edge_pixels(p, r, n - 1)
    }
}

/// Pixels of the whole lattice over the first `n` rows, in drawing order.
pub open spec fn lattice_pixels(p: Seq<Seq<Point>>, n: int) -> Seq<Point>
    decreases n,
{
    if n <= 0 {
        Seq::empty()
    } else {
        lattice_pixels(p, n - 1) + row_pixels(p, n - 1, p[n - 1].len() as int)
    }
}

proof fn lemma_concat_contains(s1: Seq<Point>, s2: Seq<Point>, x: Point)
    requires
        s1.contains(x) || s2.contains(x),
    ensures
        (s1 + s2).contains(x),
{
    if s1.contains(x) {
        let i = choose|i: int| 0 <= i < s1.len() && s1[i] == x;
        assert((s1 + s2)[i] == x);
    } else {
        let i = choose|i: int| 0 <= i < s2.len() && s2[i] == x;
        assert((s1 + s2)[s1.len() + i] == x);
    }
}

proof fn lemma_row_contains(p: Seq<Seq<Point>>, r: int, n: int, c: int, x: Point)
    requires
        0 <= c < n,
        edge_pixels(p, r, c).contains(x),
    ensures
        row_pixels(p, r, n).contains(x),
    decreases n,
{
    if c < n - 1 {
        lemma_row_contains(p, r, n - 1, c, x);
    }
    lemma_concat_contains(row_pixels(p, r, n - 1), edge_pixels(p, r, n - 1), x);
}

proof fn lemma_lattice_contains(p: Seq<Seq<Point>>, n: int, r: int, x: Point)
    requires
        0 <= r < n,
        row_pixels(p, r, p[r].len() as int).contains(x),
    ensures
        lattice_pixels(p, n).contains(x),
    decreases n,
{
    if r < n - 1 {
        lemma_lattice_contains(p, n - 1, r, x);
    }
    lemma_concat_contains(lattice_pixels(p, n - 1), row_pixels(p, n - 1, p[n - 1].len() as int), x);
}

/// A segment whose ends differ by `s` horizontally and by a multiple of `s`
/// vertically plots both of its ends.
proof fn lemma_step_multiple_ends(a: Point, b: Point, s: int, t: int)
    requires
        s >= 0,
        b.x - a.x == s,
        b.y - a.y == s * t,
    ensures
        line_pixels(a, b).contains(a),
        line_pixels(a, b).contains(b),
{
    lemma_line_ends(a, b);
    assert(line_pixels(a, b)[0] == a);
    if s > 0 {
        assert(span_y(a, b) == abs(t) * s) by (nonlinear_arith)
            requires
                span_y(a, b) == abs(b.y - a.y),
                b.y - a.y == s * t,
                s > 0,
        ;
        lemma_mod_multiples_basic(abs(t), s);
    }
}

/// On a square grid drawn with the same step on both axes, as the spacing
/// check gives it, every lattice edge is drawn through both of its ends:
/// the pixels of the whole drawing include the projected point of each cell
/// and of its row neighbour and column neighbour.
pub proof fn lemma_lattice_covers_edges(m: Seq<Vec<i16>>, step: int, wh: int, r: int, c: int)
    requires
        is_square(m),
        step >= 0,
        projection_fits(m, step, step, wh),
        0 <= r < m.len(),
        0 <= c < m.len(),
    ensures
        ({
            let p = projection(m, step, step, wh);
            let px = lattice_pixels(p, m.len() as int);
            &&& c > 0 ==> px.contains(p[r][c - 1]) && px.contains(p[r][c])
            &&& r > 0 ==> px.contains(p[r - 1][c]) && px.contains(p[r][c])
        }),
{
    let p = projection(m, step, step, wh);
    let n = m.len() as int;
    assert(m[r]@.len() == n);
    assert(p[r].len() == n);
    let b = p[r][c];
    assert(cell_fits(m, step, step, wh, r, c));
    if c > 0 {
        let a = p[r][c - 1];
        assert(cell_fits(m, step, step, wh, r, c - 1));
        let t = 1 - m[r]@[c] + m[r]@[c - 1];
        assert(b.x - a.x == step && b.y - a.y == step * t) by (nonlinear_arith)
            requires
                a.x == x_origin(n, step, wh) + r * step + (c - 1) * step,
                b.x == x_origin(n, step, wh) + r * step + c * step,
                a.y == y_origin(wh) - r * step + (c - 1) * step - m[r]@[c - 1] * step,
                b.y == y_origin(wh) - r * step + c * step - m[r]@[c] * step,
                t == 1 - m[r]@[c] + m[r]@[c - 1],
        ;
        lemma_step_multiple_ends(a, b, step, t);
        let along = line_pixels(a, b);
        let across = if r > 0 {
            line_pixels(p[r - 1][c], b)
        } else {
            Seq::empty()
        };
        assert(edge_pixels(p, r, c) == along + across);
        lemma_concat_contains(along, across, a);
        lemma_concat_contains(along, across, b);
        lemma_row_contains(p, r, n, c, a);
        lemma_row_contains(p, r, n, c, b);
        lemma_lattice_contains(p, n, r, a);
        lemma_lattice_contains(p, n, r, b);
    }
    if r > 0 {
        let a = p[r - 1][c];
        assert(m[r - 1]@.len() == n);
        assert(cell_fits(m, step, step, wh, r - 1, c));
        let t = -1 - m[r]@[c] + m[r - 1]@[c];
        assert(b.x - a.x == step && b.y - a.y == step * t) by (nonlinear_arith)
            requires
                a.x == x_origin(n, step, wh) + (r - 1) * step + c * step,
                b.x == x_origin(n, step, wh) + r * step + c * step,
                a.y == y_origin(wh) - (r - 1) * step + c * step - m[r - 1]@[c] * step,
                b.y == y_origin(wh) - r * step + c * step - m[r]@[c] * step,
                t == -1 - m[r]@[c] + m[r - 1]@[c],
        ;
        lemma_step_multiple_ends(a, b, step, t);
        let along = if c > 0 {
            line_pixels(p[r][c - 1], b)
        } else {
            Seq::empty()
        };
        let across = line_pixels(a, b);
        assert(edge_pixels(p, r, c) == along + across);
        lemma_concat_contains(along, across, a);
        lemma_concat_contains(along, across, b);
        lemma_row_contains(p, r, n, c, a);
        lemma_row_contains(p, r, n, c, b);
        lemma_lattice_contains(p, n, r, a);
        lemma_lattice_contains(p, n, r, b);
    }
}

/// Places every cell of the grid on the screen. Rows are walked in order
/// from a row origin that moves one step right and one step up per row;
/// within a row the cursor moves one step right and one step down per
/// column, and the point is the cursor lifted by the cell's elevation.
/// Returns `None` when some point falls outside the `i16` screen range.
pub fn project(map: &[Vec<i16>], width_step: i16, height_step: i16, window_height: u16) -> (r:
    Option<Vec<Vec<Point>>>)
    requires
        is_square(map@),
        height_step >= 0,
        map@.len() * height_step + 10 <= window_height,
    ensures
        r is Some <==> projection_fits(map@, width_step as int, height_step as int, window_height as int),
        r matches Some(pts) ==> pts@.len() == map@.len() && forall|i: int|
            0 <= i < pts@.len() ==> #[trigger] pts@[i]@ == projection(
                map@,
                width_step as int,
                height_step as int,
                window_height as int,
            )[i],
{
    let ghost m = map@;
    let ghost ws_i = width_step as int;
    let ghost hs_i = height_step as int;
    let ghost wh_i = window_height as int;
    let ghost proj = projection(m, ws_i, hs_i, wh_i);
    let n = map.len();
    let ws = width_step as i64;
    let hs = height_step as i64;
    let lift = (n * height_step as usize) as u64;
    let mut x_orig: i64 = ((window_height as u64 - lift - 10) / 2) as i64;
    let mut y_orig: i64 = (window_height / 2 + 5) as i64;
    let mut pts: Vec<Vec<Point>> = Vec::new();
    assert(0 <= y_origin(wh_i) <= 32772);
    let mut i: usize = 0;
    while i < n
        invariant
            n == m.len(),
            m == map@,
            proj == projection(m, ws_i, hs_i, wh_i),
            is_square(m),
            ws as int == ws_i,
            hs as int == hs_i,
            hs_i >= 0,
            n * hs_i + 10 <= wh_i,
            wh_i <= 65535,
            -32768 <= ws_i <= 32767,
            0 <= i <= n,
            x_orig == x_origin(n as int, hs_i, wh_i) + i * ws_i,
            y_orig == y_origin(wh_i) - i * hs_i,
            -70000 <= x_orig <= 70000,
            -70000 <= y_orig <= 40000,
            0 <= y_origin(wh_i) <= 32772,
            ws_i == width_step as int,
            hs_i == height_step as int,
            wh_i == window_height as int,
            hs_i <= 32767,
            pts@.len() == i,
            forall|k: int| 0 <= k < i ==> #[trigger] pts@[k]@ == proj[k],
            forall|k: int, c: int|
                0 <= k < i && 0 <= c < m[k]@.len() ==> #[trigger] cell_fits(m, ws_i, hs_i, wh_i, k, c),
        decreases n - i,
    {
        let line = &map[i];
        assert(line@.len() == n);
        assert(i * hs_i <= n * hs_i) by (nonlinear_arith)
            requires
                i <= n,
                hs_i >= 0,
        ;
        let mut x: i64 = x_orig;
        let mut y: i64 = y_orig;
        let mut row: Vec<Point> = Vec::new();
        let mut j: usize = 0;
        while j < n
            invariant
                n == m.len(),
                m == map@,
                line@ == m[i as int]@,
                line@.len() == n,
                proj == projection(m, ws_i, hs_i, wh_i),
                is_square(m),
                ws as int == ws_i,
                hs as int == hs_i,
                hs_i >= 0,
                n * hs_i + 10 <= wh_i,
                wh_i <= 65535,
                -32768 <= ws_i <= 32767,
                0 <= i < n,
                i * hs_i <= n * hs_i,
                0 <= j <= n,
                x == x_origin(n as int, hs_i, wh_i) + i * ws_i + j * ws_i,
                y == y_origin(wh_i) - i * hs_i + j * hs_i,
                -70000 <= x <= 70000,
                0 <= y_origin(wh_i) <= 32772,
                ws_i == width_step as int,
                hs_i == height_step as int,
                wh_i == window_height as int,
                hs_i <= 32767,
                row@.len() == j,
                pts@.len() == i,
                forall|k: int| 0 <= k < i ==> #[trigger] pts@[k]@ == proj[k],
                forall|k: int, c: int|
                    0 <= k < i && 0 <= c < m[k]@.len() ==> #[trigger] cell_fits(m, ws_i, hs_i, wh_i, k, c),
                forall|c: int| 0 <= c < j ==> #[trigger] row@[c] == proj[i as int][c],
                forall|c: int|
                    0 <= c < j ==> #[trigger] cell_fits(m, ws_i, hs_i, wh_i, i as int, c),
                j > 0 ==> in_i16(x - ws_i),
            decreases n - j,
        {
            let e = line[j] as i64;
            assert(j * hs_i <= n * hs_i) by (nonlinear_arith)
                requires
                    j <= n,
                    hs_i >= 0,
            ;
            assert(-1073774592 <= e * hs <= 1073741824) by (nonlinear_arith)
                requires
                    -32768 <= e <= 32767,
                    0 <= hs <= 32767,
            ;
            let py = y - e * hs;
            assert(x == cell_x(m, ws_i, hs_i, wh_i, i as int, j as int));
            assert(py == cell_y(m, ws_i, hs_i, wh_i, i as int, j as int));
            if x < i16::MIN as i64 || x > i16::MAX as i64 || py < i16::MIN as i64 || py
                > i16::MAX as i64 {
                assert(!cell_fits(m, ws_i, hs_i, wh_i, i as int, j as int));
                return None;
            }
            row.push(Point::new(x as i16, py as i16));
            assert(x + ws_i == x_origin(n as int, hs_i, wh_i) + i * ws_i + (j + 1) * ws_i)
                by (nonlinear_arith)
                requires
                    x == x_origin(n as int, hs_i, wh_i) + i * ws_i + j * ws_i,
            ;
            assert(y + hs_i == y_origin(wh_i) - i * hs_i + (j + 1) * hs_i) by (nonlinear_arith)
                requires
                    y == y_origin(wh_i) - i * hs_i + j * hs_i,
            ;
            x = x + ws;
            y = y + hs;
            j = j + 1;
        }
        assert(row@ =~= proj[i as int]);
        assert forall|k: int, c: int|
            0 <= k < i + 1 && 0 <= c < m[k]@.len() implies #[trigger] cell_fits(m, ws_i, hs_i, wh_i, k, c) by {
            if k == i {
                assert(cell_fits(m, ws_i, hs_i, wh_i, i as int, c));
            }
        }
        pts.push(row);
        assert(x_orig + ws_i == x_origin(n as int, hs_i, wh_i) + (i + 1) * ws_i)
            by (nonlinear_arith)
            requires
                x_orig == x_origin(n as int, hs_i, wh_i) + i * ws_i,
        ;
        assert(y_orig - hs_i == y_origin(wh_i) - (i + 1) * hs_i) by (nonlinear_arith)
            requires
                y_orig == y_origin(wh_i) - i * hs_i,
        ;
        assert(cell_fits(m, ws_i, hs_i, wh_i, i as int, 0));
        x_orig = x_orig + ws;
        y_orig = y_orig - hs;
        i = i + 1;
    }
    Some(pts)
}

/// Projects the grid and rasterizes every lattice edge: for each point, row
/// by row, the edge from the previous point of its row, then the edge from
/// the point in the same column of the previous row. Returns the plotted
/// pixels in drawing order, or `None` when some point falls outside the
/// `i16` screen range.
pub fn draw_map(map: &[Vec<i16>], width_step: i16, height_step: i16, window_height: u16) -> (r:
    Option<Vec<Point>>)
    requires
        is_square(map@),
        height_step >= 0,
        map@.len() * height_step + 10 <= window_height,
    ensures
        r is Some <==> projection_fits(map@, width_step as int, height_step as int, window_height as int),
        r matches Some(px) ==> px@ == lattice_pixels(
            projection(map@, width_step as int, height_step as int, window_height as int),
            map@.len() as int,
        ),
{
    let ghost p = projection(map@, width_step as int, height_step as int, window_height as int);
    let pts = match project(map, width_step, height_step, window_height) {
        Some(pts) => pts,
        None => {
            return None;
        },
    };
    let n = pts.len();
    let mut out: Vec<Point> = Vec::new();
    let mut i: usize = 0;
    while i < n
        invariant
            n == pts@.len(),
            n == p.len(),
            forall|k: int| 0 <= k < n ==> #[trigger] pts@[k]@ == p[k],
            forall|k: int| 0 <= k < n ==> #[trigger] p[k].len() == n,
            0 <= i <= n,
            out@ == lattice_pixels(p, i as int),
        decreases n - i,
    {
        let line = &pts[i];
        assert(line@ == p[i as int]);
        let mut j: usize = 0;
        while j < n
            invariant
                n == pts@.len(),
                n == p.len(),
                forall|k: int| 0 <= k < n ==> #[trigger] pts@[k]@ == p[k],
                forall|k: int| 0 <= k < n ==> #[trigger] p[k].len() == n,
                0 <= i < n,
                line@ == p[i as int],
                0 <= j <= n,
                out@ == lattice_pixels(p, i as int) + row_pixels(p, i as int, j as int),
            decreases n - j,
        {
            let ghost before = out@;
            if j > 0 {
                let mut along = draw_line(&line[j - 1], &line[j]);
                out.append(&mut along);
            }
            let ghost mid = out@;
            if i > 0 {
                let prev = &pts[i - 1];
                assert(prev@ == p[i - 1]);
                let mut across = draw_line(&prev[j], &line[j]);
                out.append(&mut across);
            }
            assert(out@ =~= before + edge_pixels(p, i as int, j as int));
            assert(out@ =~= lattice_pixels(p, i as int) + row_pixels(p, i as int, j + 1));
            j = j + 1;
        }
        assert(out@ =~= lattice_pixels(p, i + 1));
        i = i + 1;
    }
    Some(out)
}

} // verus!
