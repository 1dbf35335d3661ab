use fdf::grid::{get_default_map, parse_map, ParseError};
use fdf::validate::{check_map, spacing, ShapeError};

#[test]
fn rows_come_in_reverse_line_order() {
    let g = parse_map("1 2 3\n4 5 6\n7 8 9".to_string()).unwrap();
    assert_eq!(g, vec![vec![7, 8, 9], vec![4, 5, 6], vec![1, 2, 3]]);
}

#[test]
fn signs_and_bounds_of_tokens() {
    let g = parse_map("+5 -5 007\n-32768 32767 0".to_string()).unwrap();
    assert_eq!(g, vec![vec![-32768, 32767, 0], vec![5, -5, 7]]);
}

#[test]
fn token_out_of_range_is_rejected() {
    assert_eq!(parse_map("1 2\n3 32768".to_string()), Err(ParseError { line: 1 }));
    assert_eq!(parse_map("-32769".to_string()), Err(ParseError { line: 0 }));
}

#[test]
fn malformed_tokens_are_rejected() {
    assert_eq!(parse_map("1  2".to_string()), Err(ParseError { line: 0 }));
    assert_eq!(parse_map("1 a".to_string()), Err(ParseError { line: 0 }));
    assert_eq!(parse_map("1 2\n-".to_string()), Err(ParseError { line: 1 }));
    assert_eq!(parse_map("1 2\n".to_string()), Err(ParseError { line: 1 }));
    assert_eq!(parse_map("".to_string()), Err(ParseError { line: 0 }));
    assert_eq!(parse_map("1\n2 x\n3 y".to_string()), Err(ParseError { line: 1 }));
}

#[test]
fn default_map_is_nine_by_nine() {
    let g = parse_map(get_default_map()).unwrap();
    assert_eq!(g.len(), 9);
    for row in g.iter() {
        assert_eq!(row.len(), 9);
    }
    assert_eq!(g[4], vec![0, -1, 2, 0, 4, 0, 2, -1, 0]);
    assert_eq!(g[1], vec![0, 1, 1, 1, -1, 1, 1, 1, 0]);
    assert_eq!(g[8], vec![0, 0, 0, 0, 0, 0, 0, 0, 0]);
}

#[test]
fn spacing_divides_twice_with_floor() {
    assert_eq!(spacing(9, 600), 32);
    assert_eq!(spacing(1, 600), 295);
    assert_eq!(spacing(7, 100), 6);
    assert_eq!(spacing(600, 600), 0);
}

#[test]
fn default_map_validates_with_equal_steps() {
    let g = parse_map(get_default_map()).unwrap();
    assert_eq!(check_map(&g, 600), Ok((32, 32)));
}

#[test]
fn empty_grid_is_rejected() {
    let g: Vec<Vec<i16>> = Vec::new();
    assert_eq!(check_map(&g, 600), Err(ShapeError::Empty));
}

#[test]
fn non_square_grid_is_rejected() {
    let g = vec![vec![1, 2, 3], vec![4, 5, 6]];
    assert_eq!(check_map(&g, 600), Err(ShapeError::NotSquare { height: 2, width: 3 }));
}

#[test]
fn ragged_row_is_named() {
    let g = vec![vec![1, 2, 3], vec![4, 5, 6], vec![7, 8], vec![1]];
    assert_eq!(check_map(&g, 600), Err(ShapeError::NotSquare { height: 4, width: 3 }));
    let g = vec![vec![1, 2, 3], vec![4, 5, 6], vec![7, 8]];
    assert_eq!(
        check_map(&g, 600),
        Err(ShapeError::BadRow { row: 2, expected: 3, found: 2 })
    );
    let g = vec![vec![1, 2, 3], vec![4, 5, 6, 7], vec![7, 8]];
    assert_eq!(
        check_map(&g, 600),
        Err(ShapeError::BadRow { row: 1, expected: 3, found: 4 })
    );
}
