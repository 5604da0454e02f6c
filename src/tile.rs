//! Tile colors, the fixed wall layout and the floor penalty table.
use vstd::prelude::*;

verus! {

/// A tile color.
#[derive(Clone, Copy, Debug, PartialEq, Eq, Structural, Hash)]
pub enum Tile {
    Black,
    Blue,
    Red,
    White,
    Yellow,
}

/// The colors in their fixed iteration order.
pub const COLORS: [Tile; 5] = [Tile::Black, Tile::Blue, Tile::Red, Tile::White, Tile::Yellow];

/// Cost of each successive tile on the floor line.
pub const FLOOR_PENALTIES: [usize; 7] = [1, 1, 2, 2, 2, 3, 3];

/// Number of cells a floor line holds; tiles past it are dropped.
pub const FLOOR_CAPACITY: usize = 7;

/// Position of a color in the fixed color order.
pub open spec fn color_index(t: Tile) -> int {
    match t {
        Tile::Black => 0,
        Tile::Blue => 1,
        Tile::Red => 2,
        Tile::White => 3,
        Tile::Yellow => 4,
    }
}

/// The color at a position of the fixed color order.
pub open spec fn color_at(i: int) -> Tile {
    if i == 0 {
        Tile::Black
    } else if i == 1 {
        Tile::Blue
    } else if i == 2 {
        Tile::Red
    } else if i == 3 {
        Tile::White
    } else {
        Tile::Yellow
    }
}

/// Column that a color occupies in the first wall row; every next row shifts
/// the layout one column to the right.
pub open spec fn wall_offset(t: Tile) -> int {
    match t {
        Tile::Blue => 0,
        Tile::Yellow => 1,
        Tile::Red => 2,
        Tile::Black => 3,
        Tile::White => 4,
    }
}

/// The wall column that holds color `t` in row `row`.
pub open spec fn spec_wall_column(row: int, t: Tile) -> int {
    (wall_offset(t) + row) % 5
}

/// The color of wall cell (`row`, `col`).
pub open spec fn spec_wall_color(row: int, col: int) -> Tile {
    let k = (col - row + 5) % 5;
    if k == 0 {
        Tile::Blue
    } else if k == 1 {
        Tile::Yellow
    } else if k == 2 {
        Tile::Red
    } else if k == 3 {
        Tile::Black
    } else {
        Tile::White
    }
}

/// Penalty of the `i`-th floor cell.
pub open spec fn floor_step(i: int) -> int {
    if i <= 1 {
        1
    } else if i <= 4 {
        2
    } else {
        3
    }
}

/// Cumulative penalty of a floor line holding `n` tiles (at most seven count).
pub open spec fn floor_penalty(n: nat) -> int
    decreases n,
{
    if n == 0 {
        0
    } else if n > 7 {
        floor_penalty(7)
    } else {
        floor_penalty((n - 1) as nat) + floor_step(n - 1)
    }
}

pub proof fn lemma_floor_penalty_bounds(n: nat)
    ensures
        0 <= floor_penalty(n) <= 14,
        n <= 7 ==> floor_penalty(n) <= 2 * n,
{
    reveal_with_fuel(floor_penalty, 9);
    if n > 7 {
        assert(floor_penalty(n) == floor_penalty(7));
    }
}

pub proof fn lemma_color_roundtrip(t: Tile)
    ensures
        0 <= color_index(t) < 5,
        color_at(color_index(t)) == t,
        0 <= spec_wall_column(0, t) < 5,
{
}

/// Position of `t` in the fixed color order.
pub fn tile_index(t: Tile) -> (r: usize)
    ensures
        r == color_index(t),
        r < 5,
{
    match t {
        Tile::Black => 0,
        Tile::Blue => 1,
        Tile::Red => 2,
        Tile::White => 3,
        Tile::Yellow => 4,
    }
}

/// The color at position `i` of the fixed color order.
pub fn tile_at(i: usize) -> (r: Tile)
    requires
        i < 5,
    ensures
        r == color_at(i as int),
        color_index(r) == i,
{
    COLORS[i]
}

/// The wall column that holds `color` in row `row`.
pub fn wall_column(row: usize, color: Tile) -> (r: usize)
    requires
        row < 5,
    ensures
        r == spec_wall_column(row as int, color),
        r < 5,
{
    let offset: usize = match color {
        Tile::Blue => 0,
        Tile::Yellow => 1,
        Tile::Red => 2,
        Tile::Black => 3,
        Tile::White => 4,
    };
    (offset + row) % 5
}

/// The color of wall cell (`row`, `col`).
pub fn wall_color(row: usize, col: usize) -> (r: Tile)
    requires
        row < 5,
        col < 5,
    ensures
        r == spec_wall_color(row as int, col as int),
        spec_wall_column(row as int, r) == col,
{
    let k: usize = (col + 5 - row) % 5;
    if k == 0 {
        Tile::Blue
    } else if k == 1 {
        Tile::Yellow
    } else if k == 2 {
        Tile::Red
    } else if k == 3 {
        Tile::Black
    } else {
        Tile::White
    }
}

/// Cumulative penalty of a floor line holding `floor` tiles.
pub fn floor_penalty_of(floor: usize) -> (r: i32)
    ensures
        r == floor_penalty(floor as nat),
        0 <= r <= 14,
{
    proof {
        lemma_floor_penalty_bounds(floor as nat);
    }
    let n: usize = if floor > FLOOR_CAPACITY {
        FLOOR_CAPACITY
    } else {
        floor
    };
    let mut total: i32 = 0;
    let mut i: usize = 0;
    while i < n
        invariant
            n <= 7,
            i <= n,
            total == floor_penalty(i as nat),
            floor_penalty(floor as nat) == floor_penalty(n as nat),
        decreases n - i,
    {
        proof {
            lemma_floor_penalty_bounds(i as nat);
        }
        let step = FLOOR_PENALTIES[i];
        assert(step == floor_step(i as int));
        total = total + step as i32;
        i = i + 1;
    }
    total
}

} // verus!
