use vstd::prelude::*;
use crate::project::is_square;

verus! {

/// Why a grid cannot be drawn.
#[derive(Clone, Copy, Debug, PartialEq, Eq, Structural)]
pub enum ShapeError {
    /// The grid has no rows.
    Empty,
    /// The first row is not as long as the grid is high.
    NotSquare { height: usize, width: usize },
    /// Row `row` does not have the width of the first row.
    BadRow { row: usize, expected: usize, found: usize },
}

/// Per-cell screen spacing for a grid of `rows` rows in a window
/// `window_height` pixels high: floor division by the row count, then by two.
pub open spec fn spacing_step(rows: int, window_height: int) -> int {
    ((window_height - 10) / rows) / 2
}

/// Screen spacing between neighbouring cells; the same on both axes and
/// derived from the window height alone.
pub fn spacing(rows: usize, window_height: u16) -> (s: i16)
    requires
        rows > 0,
        window_height >= 10,
    ensures
        s as int == spacing_step(rows as int, window_height as int),
        s >= 0,
{
    let per_row = (window_height as usize - 10) / rows;
    (per_row / 2) as i16
}

/// Checks that the grid is non-empty and square and returns the spacing
/// `(width_step, height_step)`. A first row whose length differs from the
/// row count is reported as `NotSquare`; otherwise the first row of another
/// length is reported as `BadRow`.
pub fn check_map(map: &[Vec<i16>], window_height: u16) -> (r: Result<(i16, i16), ShapeError>)
    requires
        window_height >= 10,
    ensures
        r is Ok <==> map@.len() > 0 && is_square(map@),
        r matches Ok(s) ==> s.0 == s.1 && s.0 as int == spacing_step(
            map@.len() as int,
            window_height as int,
        ),
        map@.len() == 0 ==> r == Err::<(i16, i16), ShapeError>(ShapeError::Empty),
        map@.len() > 0 && map@[0]@.len() != map@.len() ==> r == Err::<(i16, i16), ShapeError>(
            ShapeError::NotSquare { height: map@.len() as usize, width: map@[0]@.len() as usize },
        ),
        r matches Err(ShapeError::Empty) ==> map@.len() == 0,
        r matches Err(ShapeError::NotSquare { .. }) ==> map@.len() > 0 && map@[0]@.len()
            != map@.len(),
        r matches Err(ShapeError::BadRow { row, expected, found }) ==> {
            &&& map@[0]@.len() == map@.len()
            &&& row < map@.len()
            &&& expected == map@[0]@.len()
            &&& found == map@[row as int]@.len()
            &&& found != expected
            &&& forall|k: int| 0 <= k < row ==> #[trigger] map@[k]@.len() == expected
        },
{
    if map.len() == 0 {
        return Err(ShapeError::Empty);
    }
    let width = map[0].len();
    let height = map.len();
    if width != height {
        return Err(ShapeError::NotSquare { height: height, width: width });
    }
    let mut pos: usize = 0;
    while pos < height
        invariant
            height == map@.len(),
            width == map@[0]@.len(),
            width == height,
            0 <= pos <= height,
            forall|k: int| 0 <= k < pos ==> #[trigger] map@[k]@.len() == width,
        decreases height - pos,
    {
        let found = map[pos].len();
        if found != width {
            return Err(ShapeError::BadRow { row: pos, expected: width, found: found });
        }
        pos = pos + 1;
    }
    let step = spacing(height, window_height);
    Ok((step, step))
}

} // verus!
