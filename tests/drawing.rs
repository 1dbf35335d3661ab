use fdf::grid::{get_default_map, parse_map};
use fdf::point::Point;
use fdf::project::{draw_map, project};
use fdf::raster::draw_line;
use fdf::validate::check_map;

fn pts(v: &[(i16, i16)]) -> Vec<Point> {
    v.iter().map(|&(x, y)| Point::new(x, y)).collect()
}

#[test]
fn point_new_keeps_coordinates() {
    let p = Point::new(-3, 7);
    assert_eq!(p.x, -3);
    assert_eq!(p.y, 7);
}

#[test]
fn steep_line_two_rows_per_column() {
    let r = draw_line(&Point::new(0, 0), &Point::new(5, 10));
    assert_eq!(
        r,
        pts(&[
            (0, 0), (0, 1), (1, 2), (1, 3), (2, 4), (2, 5),
            (3, 6), (3, 7), (4, 8), (4, 9), (5, 10),
        ])
    );
    assert!(r.contains(&Point::new(0, 0)));
    assert!(r.contains(&Point::new(5, 10)));
    for x in 0..=5i16 {
        let ys: Vec<i16> = r.iter().filter(|p| p.x == x).map(|p| p.y).collect();
        assert!(!ys.is_empty());
        for w in ys.windows(2) {
            assert_eq!(w[1], w[0] + 1);
        }
    }
}

#[test]
fn flat_line_one_pixel_per_column() {
    let r = draw_line(&Point::new(0, 0), &Point::new(5, 0));
    assert_eq!(r, pts(&[(0, 0), (1, 0), (2, 0), (3, 0), (4, 0), (5, 0)]));
}

#[test]
fn flat_line_drawn_leftwards() {
    let r = draw_line(&Point::new(2, 4), &Point::new(0, 4));
    assert_eq!(r, pts(&[(2, 4), (1, 4), (0, 4)]));
}

#[test]
fn vertical_line_is_a_contiguous_run() {
    let r = draw_line(&Point::new(3, 2), &Point::new(3, -2));
    assert_eq!(r, pts(&[(3, 2), (3, 1), (3, 0), (3, -1), (3, -2)]));
    let r = draw_line(&Point::new(-7, 10), &Point::new(-7, 13));
    assert_eq!(r, pts(&[(-7, 10), (-7, 11), (-7, 12), (-7, 13)]));
}

#[test]
fn single_point_segment() {
    let r = draw_line(&Point::new(4, 4), &Point::new(4, 4));
    assert_eq!(r, pts(&[(4, 4)]));
}

#[test]
fn fractional_slope_steps_past_the_end() {
    let r = draw_line(&Point::new(0, 0), &Point::new(3, 4));
    assert_eq!(r, pts(&[(0, 0), (0, 1), (1, 2), (1, 3), (2, 4), (3, 5)]));
}

#[test]
fn shallow_slope_keeps_climbing() {
    let r = draw_line(&Point::new(0, 0), &Point::new(5, 1));
    assert_eq!(r, pts(&[(0, 0), (1, 1), (2, 2), (3, 3), (4, 4), (5, 5)]));
}

#[test]
fn steep_line_upwards_and_leftwards() {
    let r = draw_line(&Point::new(2, 6), &Point::new(0, 0));
    assert_eq!(
        r,
        pts(&[(2, 6), (2, 5), (2, 4), (1, 3), (1, 2), (1, 1), (0, 0)])
    );
}

#[test]
fn runaway_rows_saturate() {
    let r = draw_line(&Point::new(-30000, 0), &Point::new(30000, 1));
    assert_eq!(r.len(), 60001);
    assert_eq!(r[0], Point::new(-30000, 0));
    assert_eq!(r[1], Point::new(-29999, 1));
    assert_eq!(r[60000], Point::new(30000, 32767));
}

#[test]
fn projection_of_small_grid() {
    let g = vec![vec![0, 1], vec![2, 3]];
    let p = project(&g, 10, 10, 100).unwrap();
    assert_eq!(
        p,
        vec![
            pts(&[(35, 55), (45, 55)]),
            pts(&[(45, 25), (55, 25)]),
        ]
    );
}

#[test]
fn projection_out_of_range_is_refused() {
    let g = vec![vec![0, 2000], vec![0, 0]];
    assert_eq!(project(&g, 32, 32, 600), None);
    assert_eq!(draw_map(&g, 32, 32, 600), None);
}

#[test]
fn small_grid_lattice_pixels() {
    let g = vec![vec![0, 0], vec![0, 0]];
    let px = draw_map(&g, 2, 2, 20).unwrap();
    // origin (3, 15); points (3,15) (5,17) / (5,13) (7,15)
    let mut expected = Vec::new();
    expected.extend(draw_line(&Point::new(3, 15), &Point::new(5, 17)));
    expected.extend(draw_line(&Point::new(3, 15), &Point::new(5, 13)));
    expected.extend(draw_line(&Point::new(5, 13), &Point::new(7, 15)));
    expected.extend(draw_line(&Point::new(5, 17), &Point::new(7, 15)));
    assert_eq!(px, expected);
    assert_eq!(
        px,
        pts(&[
            (3, 15), (4, 16), (5, 17),
            (3, 15), (4, 14), (5, 13),
            (5, 13), (6, 14), (7, 15),
            (5, 17), (6, 16), (7, 15),
        ])
    );
}

#[test]
fn default_map_lattice_contains_every_edge_end() {
    let g = parse_map(get_default_map()).unwrap();
    let (w, h) = check_map(&g, 600).unwrap();
    let p = project(&g, w, h, 600).unwrap();
    assert_eq!(p[0][0], Point::new(151, 305));
    assert_eq!(p[4][4], Point::new(151 + 256, 305 - 128));
    let px = draw_map(&g, w, h, 600).unwrap();
    for r in 0..9 {
        for c in 0..9 {
            if c > 0 {
                assert!(px.contains(&p[r][c - 1]));
                assert!(px.contains(&p[r][c]));
            }
            if r > 0 {
                assert!(px.contains(&p[r - 1][c]));
                assert!(px.contains(&p[r][c]));
            }
        }
    }
}
