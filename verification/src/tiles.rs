use vstd::prelude::*;
use crate::components::Direction;
use crate::components::opposite;

verus! {

/// One possible local neighbourhood: a fixed 3x3 matrix of sample values,
/// indexed `cells[x][y]` with `x` the column and `y` the row.
#[derive(Clone, Copy, Debug)]
pub struct Tile {
    pub cells: [[u8; 3]; 3],
}

/// The value of tile `t` at column `x`, row `y`.
pub open spec fn tile_at(t: Tile, x: int, y: int) -> u8 {
    t.cells[x][y]
}

/// Structural tile identity: equal value at every cell.
pub open spec fn tile_eq(a: Tile, b: Tile) -> bool {
    forall|x: int, y: int| 0 <= x < 3 && 0 <= y < 3 ==> tile_at(a, x, y) == tile_at(b, x, y)
}

/// Geometric compatibility of `b` sitting adjacent to `a` in direction `d`:
/// the two-column (or two-row) strip of `a` facing `d` equals the
/// opposite-facing strip of `b`.
pub open spec fn compat(a: Tile, b: Tile, d: Direction) -> bool {
    match d {
        Direction::Right => forall|c: int, r: int|
            0 <= c < 2 && 0 <= r < 3 ==> tile_at(a, c + 1, r) == tile_at(b, c, r),
        Direction::Left => forall|c: int, r: int|
            0 <= c < 2 && 0 <= r < 3 ==> tile_at(a, c, r) == tile_at(b, c + 1, r),
        Direction::Down => forall|c: int, r: int|
            0 <= c < 3 && 0 <= r < 2 ==> tile_at(a, c, r + 1) == tile_at(b, c, r),
        Direction::Up => forall|c: int, r: int|
            0 <= c < 3 && 0 <= r < 2 ==> tile_at(a, c, r) == tile_at(b, c, r + 1),
    }
}

/// Compatibility is symmetric across opposite directions: `b` may sit in
/// direction `d` of `a` exactly when `a` may sit in direction `opposite(d)`
/// of `b`, because both statements compare the same shared strip.
pub proof fn lemma_compat_symmetry(a: Tile, b: Tile, d: Direction)
    ensures
        compat(a, b, d) == compat(b, a, opposite(d)),
{
}

/// Tile identity spelled out cell by cell, so that reasoning about a
/// concrete pair of tiles can go through the nine ground comparisons.
pub proof fn lemma_tile_eq_cells(a: Tile, b: Tile)
    ensures
        tile_eq(a, b) <==> (tile_at(a, 0, 0) == tile_at(b, 0, 0)
            && tile_at(a, 0, 1) == tile_at(b, 0, 1) && tile_at(a, 0, 2) == tile_at(b, 0, 2)
            && tile_at(a, 1, 0) == tile_at(b, 1, 0) && tile_at(a, 1, 1) == tile_at(b, 1, 1)
            && tile_at(a, 1, 2) == tile_at(b, 1, 2) && tile_at(a, 2, 0) == tile_at(b, 2, 0)
            && tile_at(a, 2, 1) == tile_at(b, 2, 1) && tile_at(a, 2, 2) == tile_at(b, 2, 2)),
{
    if tile_at(a, 0, 0) == tile_at(b, 0, 0)
        && tile_at(a, 0, 1) == tile_at(b, 0, 1) && tile_at(a, 0, 2) == tile_at(b, 0, 2)
        && tile_at(a, 1, 0) == tile_at(b, 1, 0) && tile_at(a, 1, 1) == tile_at(b, 1, 1)
        && tile_at(a, 1, 2) == tile_at(b, 1, 2) && tile_at(a, 2, 0) == tile_at(b, 2, 0)
        && tile_at(a, 2, 1) == tile_at(b, 2, 1) && tile_at(a, 2, 2) == tile_at(b, 2, 2) {
        assert forall|x: int, y: int| 0 <= x < 3 && 0 <= y < 3
            implies tile_at(a, x, y) == tile_at(b, x, y) by {
            assert(x == 0 || x == 1 || x == 2);
            assert(y == 0 || y == 1 || y == 2);
        }
    }
}

/// Whether two tiles are structurally identical.
pub fn tiles_match(a: &Tile, b: &Tile) -> (r: bool)
    ensures
        r == tile_eq(*a, *b),
{
    let r =
        a.cells[0][0] == b.cells[0][0] && a.cells[0][1] == b.cells[0][1]
        && a.cells[0][2] == b.cells[0][2] && a.cells[1][0] == b.cells[1][0]
        && a.cells[1][1] == b.cells[1][1] && a.cells[1][2] == b.cells[1][2]
        && a.cells[2][0] == b.cells[2][0] && a.cells[2][1] == b.cells[2][1]
        && a.cells[2][2] == b.cells[2][2];
    proof {
        lemma_tile_eq_cells(*a, *b);
    }
    r
}

/// Compatibility spelled out cell by cell for each direction, so that
/// reasoning about a concrete pair of tiles can go through the six ground
/// comparisons of the shared strip.
pub proof fn lemma_compat_cells(a: Tile, b: Tile, d: Direction)
    ensures
        d == Direction::Right ==> (compat(a, b, d) <==> (tile_at(a, 1, 0) == tile_at(b, 0, 0)
            && tile_at(a, 1, 1) == tile_at(b, 0, 1) && tile_at(a, 1, 2) == tile_at(b, 0, 2)
            && tile_at(a, 2, 0) == tile_at(b, 1, 0) && tile_at(a, 2, 1) == tile_at(b, 1, 1)
            && tile_at(a, 2, 2) == tile_at(b, 1, 2))),
        d == Direction::Left ==> (compat(a, b, d) <==> (tile_at(a, 0, 0) == tile_at(b, 1, 0)
            && tile_at(a, 0, 1) == tile_at(b, 1, 1) && tile_at(a, 0, 2) == tile_at(b, 1, 2)
            && tile_at(a, 1, 0) == tile_at(b, 2, 0) && tile_at(a, 1, 1) == tile_at(b, 2, 1)
            && tile_at(a, 1, 2) == tile_at(b, 2, 2))),
        d == Direction::Down ==> (compat(a, b, d) <==> (tile_at(a, 0, 1) == tile_at(b, 0, 0)
            && tile_at(a, 1, 1) == tile_at(b, 1, 0) && tile_at(a, 2, 1) == tile_at(b, 2, 0)
            && tile_at(a, 0, 2) == tile_at(b, 0, 1) && tile_at(a, 1, 2) == tile_at(b, 1, 1)
            && tile_at(a, 2, 2) == tile_at(b, 2, 1))),
        d == Direction::Up ==> (compat(a, b, d) <==> (tile_at(a, 0, 0) == tile_at(b, 0, 1)
            && tile_at(a, 1, 0) == tile_at(b, 1, 1) && tile_at(a, 2, 0) == tile_at(b, 2, 1)
            && tile_at(a, 0, 1) == tile_at(b, 0, 2) && tile_at(a, 1, 1) == tile_at(b, 1, 2)
            && tile_at(a, 2, 1) == tile_at(b, 2, 2))),
{
    match d {
        Direction::Right => {
            if tile_at(a, 1, 0) == tile_at(b, 0, 0)
                && tile_at(a, 1, 1) == tile_at(b, 0, 1) && tile_at(a, 1, 2) == tile_at(b, 0, 2)
                && tile_at(a, 2, 0) == tile_at(b, 1, 0) && tile_at(a, 2, 1) == tile_at(b, 1, 1)
                && tile_at(a, 2, 2) == tile_at(b, 1, 2) {
                assert forall|c: int, r: int| 0 <= c < 2 && 0 <= r < 3
                    implies tile_at(a, c + 1, r) == tile_at(b, c, r) by {
                    assert(c == 0 || c == 1);
                    assert(r == 0 || r == 1 || r == 2);
                }
            }
        },
        Direction::Left => {
            if tile_at(a, 0, 0) == tile_at(b, 1, 0)
                && tile_at(a, 0, 1) == tile_at(b, 1, 1) && tile_at(a, 0, 2) == tile_at(b, 1, 2)
                && tile_at(a, 1, 0) == tile_at(b, 2, 0) && tile_at(a, 1, 1) == tile_at(b, 2, 1)
                && tile_at(a, 1, 2) == tile_at(b, 2, 2) {
                assert forall|c: int, r: int| 0 <= c < 2 && 0 <= r < 3
                    implies tile_at(a, c, r) == tile_at(b, c + 1, r) by {
                    assert(c == 0 || c == 1);
                    assert(r == 0 || r == 1 || r == 2);
                }
            }
        },
        Direction::Down => {
            if tile_at(a, 0, 1) == tile_at(b, 0, 0)
                && tile_at(a, 1, 1) == tile_at(b, 1, 0) && tile_at(a, 2, 1) == tile_at(b, 2, 0)
                && tile_at(a, 0, 2) == tile_at(b, 0, 1) && tile_at(a, 1, 2) == tile_at(b, 1, 1)
                && tile_at(a, 2, 2) == tile_at(b, 2, 1) {
                assert forall|c: int, r: int| 0 <= c < 3 && 0 <= r < 2
                    implies tile_at(a, c, r + 1) == tile_at(b, c, r) by {
                    assert(c == 0 || c == 1 || c == 2);
                    assert(r == 0 || r == 1);
                }
            }
        },
        Direction::Up => {
            if tile_at(a, 0, 0) == tile_at(b, 0, 1)
                && tile_at(a, 1, 0) == tile_at(b, 1, 1) && tile_at(a, 2, 0) == tile_at(b, 2, 1)
                && tile_at(a, 0, 1) == tile_at(b, 0, 2) && tile_at(a, 1, 1) == tile_at(b, 1, 2)
                && tile_at(a, 2, 1) == tile_at(b, 2, 2) {
                assert forall|c: int, r: int| 0 <= c < 3 && 0 <= r < 2
                    implies tile_at(a, c, r) == tile_at(b, c, r + 1) by {
                    assert(c == 0 || c == 1 || c == 2);
                    assert(r == 0 || r == 1);
                }
            }
        },
    }
}

/// Whether `b` may sit adjacent to `a` in `direction`, by exact overlap of
/// the shared edge strips.
pub fn compatible(a: &Tile, b: &Tile, direction: &Direction) -> (r: bool)
    ensures
        r == compat(*a, *b, *direction),
{
    proof {
        lemma_compat_cells(*a, *b, *direction);
    }
    match direction {
        Direction::Right => {
            a.cells[1][0] == b.cells[0][0] && a.cells[1][1] == b.cells[0][1]
                && a.cells[1][2] == b.cells[0][2] && a.cells[2][0] == b.cells[1][0]
                && a.cells[2][1] == b.cells[1][1] && a.cells[2][2] == b.cells[1][2]
        },
        Direction::Left => {
            a.cells[0][0] == b.cells[1][0] && a.cells[0][1] == b.cells[1][1]
                && a.cells[0][2] == b.cells[1][2] && a.cells[1][0] == b.cells[2][0]
                && a.cells[1][1] == b.cells[2][1] && a.cells[1][2] == b.cells[2][2]
        },
        Direction::Down => {
            a.cells[0][1] == b.cells[0][0] && a.cells[1][1] == b.cells[1][0]
                && a.cells[2][1] == b.cells[2][0] && a.cells[0][2] == b.cells[0][1]
                && a.cells[1][2] == b.cells[1][1] && a.cells[2][2] == b.cells[2][1]
        },
        Direction::Up => {
            a.cells[0][0] == b.cells[0][1] && a.cells[1][0] == b.cells[1][1]
                && a.cells[2][0] == b.cells[2][1] && a.cells[0][1] == b.cells[0][2]
                && a.cells[1][1] == b.cells[1][2] && a.cells[2][1] == b.cells[2][2]
        },
    }
}

/// The transpose: swaps columns and rows.
pub fn transpose(tile: &Tile) -> (r: Tile)
    ensures
        forall|x: int, y: int| 0 <= x < 3 && 0 <= y < 3
            ==> tile_at(r, x, y) == tile_at(*tile, y, x),
{
    Tile {
        cells: [
            [tile.cells[0][0], tile.cells[1][0], tile.cells[2][0]],
            [tile.cells[0][1], tile.cells[1][1], tile.cells[2][1]],
            [tile.cells[0][2], tile.cells[1][2], tile.cells[2][2]],
        ],
    }
}

/// Reverses each column in place: mirrors the tile across its middle row.
pub fn reverse_x(tile: &Tile) -> (r: Tile)
    ensures
        forall|x: int, y: int| 0 <= x < 3 && 0 <= y < 3
            ==> tile_at(r, x, y) == tile_at(*tile, x, 2 - y),
{
    Tile {
        cells: [
            [tile.cells[0][2], tile.cells[0][1], tile.cells[0][0]],
            [tile.cells[1][2], tile.cells[1][1], tile.cells[1][0]],
            [tile.cells[2][2], tile.cells[2][1], tile.cells[2][0]],
        ],
    }
}

/// Reads cell (x, y) of symmetry variant `v` of a tile back to the source
/// tile's own coordinates: variant 0 is the identity, 1 the 90-degree
/// rotation, 2 the -90-degree rotation, 3 the 180-degree rotation.
pub open spec fn variant_source(v: int, x: int, y: int) -> (int, int) {
    if v == 0 {
        (x, y)
    } else if v == 1 {
        (2 - y, x)
    } else if v == 2 {
        (y, 2 - x)
    } else {
        (2 - x, 2 - y)
    }
}

/// `t` is symmetry variant `v` of tile `n`.
pub open spec fn is_variant_of(t: Tile, n: Tile, v: int) -> bool {
    forall|x: int, y: int| 0 <= x < 3 && 0 <= y < 3
        ==> tile_at(t, x, y) == tile_at(n, variant_source(v, x, y).0, variant_source(v, x, y).1)
}

/// The four symmetry variants of a tile: identity, 90-degree, -90-degree and
/// 180-degree rotation, built from transpose/reverse compositions.
pub fn get_reflections(tile: &Tile) -> (r: Vec<Tile>)
    ensures
        r@.len() == 4,
        forall|v: int| 0 <= v < 4 ==> is_variant_of(#[trigger] r@[v], *tile, v),
{
    let mut reflections: Vec<Tile> = Vec::new();

    // no action, 0 degrees
    reflections.push(tile.clone());

    // 90 degrees: transpose, then reverse
    let tile_90 = reverse_x(&transpose(tile));
    reflections.push(tile_90);

    // -90 degrees: reverse, then transpose
    let tile_neg90 = transpose(&reverse_x(tile));
    reflections.push(tile_neg90);

    // 180 degrees: 90 degrees applied twice
    let tile_180 = reverse_x(&transpose(&reverse_x(&transpose(tile))));
    reflections.push(tile_180);

    proof {
        assert(is_variant_of(reflections@[0], *tile, 0));
        assert(is_variant_of(reflections@[1], *tile, 1));
        assert(is_variant_of(reflections@[2], *tile, 2));
        assert(is_variant_of(reflections@[3], *tile, 3));
    }
    reflections
}

} // verus!
