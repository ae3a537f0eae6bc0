//! Where each track cell and lane slot sits on the square grid of the cross
//! shaped board, eleven columns by eleven rows.
use vstd::prelude::*;

verus! {

/// Bound on the grid coordinates handed in, far from the limits of `i32`.
pub const COORD_LIMIT: i32 = 0x1000_0000;

/// The unit step of a compass direction: 0 north, 1 east, 2 south, 3 west.
pub open spec fn direction(d: int) -> (int, int) {
    if d == 0 {
        (0, -1)
    } else if d == 1 {
        (1, 0)
    } else if d == 2 {
        (0, 1)
    } else {
        (-1, 0)
    }
}

/// The grid cell where the stretch of track of board side `side` begins.
pub open spec fn side_origin(side: int) -> (int, int) {
    if side == 0 {
        (4, 10)
    } else if side == 1 {
        (0, 4)
    } else if side == 2 {
        (6, 0)
    } else {
        (10, 6)
    }
}

/// The grid cell reached from the origin of `side` by `base` steps along the
/// side's direction and `cross` steps along the direction a quarter turn before it.
pub open spec fn grid_at(base: int, cross: int, side: int) -> (int, int) {
    let b = direction(side);
    let c = direction((side + 3) % 4);
    let o = side_origin(side);
    (base * b.0 + cross * c.0 + o.0, base * b.1 + cross * c.1 + o.1)
}

/// The steps along and across a side of the `index`-th track cell of that side:
/// five cells outward, one across the tip, then four back inward.
pub open spec fn cell_steps(index: int) -> (int, int) {
    if index < 5 {
        (index, 0)
    } else if index == 9 {
        (5, 4)
    } else {
        (4, index - 4)
    }
}

fn direction_of(d: usize) -> (r: (i32, i32))
    requires
        d < 4,
    ensures
        r.0 == direction(d as int).0,
        r.1 == direction(d as int).1,
{
    match d {
        0 => (0, -1),
        1 => (1, 0),
        2 => (0, 1),
        _ => (-1, 0),
    }
}

/// The grid cell `base` steps along and `cross` steps across from the origin
/// of board side `side`.
pub fn grid_pos_on_side(pos: (i32, i32), side: usize) -> (r: (i32, i32))
    requires
        side < 4,
        -COORD_LIMIT <= pos.0 <= COORD_LIMIT,
        -COORD_LIMIT <= pos.1 <= COORD_LIMIT,
    ensures
        r.0 == grid_at(pos.0 as int, pos.1 as int, side as int).0,
        r.1 == grid_at(pos.0 as int, pos.1 as int, side as int).1,
{
    let (base, cross) = pos;
    let (base_x, base_y) = direction_of(side);
    let (cross_x, cross_y) = direction_of((side + 3) % 4);
    let (x_start, y_start) = match side {
        0 => (4i32, 10i32),
        1 => (0, 4),
        2 => (6, 0),
        _ => (10, 6),
    };
    assert(-COORD_LIMIT <= base * base_x <= COORD_LIMIT) by (nonlinear_arith)
        requires
            -COORD_LIMIT <= base <= COORD_LIMIT,
            -1 <= base_x <= 1,
    ;
    assert(-COORD_LIMIT <= base * base_y <= COORD_LIMIT) by (nonlinear_arith)
        requires
            -COORD_LIMIT <= base <= COORD_LIMIT,
            -1 <= base_y <= 1,
    ;
    assert(-COORD_LIMIT <= cross * cross_x <= COORD_LIMIT) by (nonlinear_arith)
        requires
            -COORD_LIMIT <= cross <= COORD_LIMIT,
            -1 <= cross_x <= 1,
    ;
    assert(-COORD_LIMIT <= cross * cross_y <= COORD_LIMIT) by (nonlinear_arith)
        requires
            -COORD_LIMIT <= cross <= COORD_LIMIT,
            -1 <= cross_y <= 1,
    ;
    let x_offset = base * base_x + cross * cross_x;
    let y_offset = base * base_y + cross * cross_y;
    (x_offset + x_start, y_offset + y_start)
}

/// The grid cell of the `norm_index`-th track cell of board side `side`.
pub fn get_grid_pos(norm_index: i32, side: usize) -> (r: (i32, i32))
    requires
        side < 4,
        -COORD_LIMIT <= norm_index <= COORD_LIMIT,
    ensures
        r.0 == grid_at(cell_steps(norm_index as int).0, cell_steps(norm_index as int).1, side as int).0,
        r.1 == grid_at(cell_steps(norm_index as int).0, cell_steps(norm_index as int).1, side as int).1,
{
    let (cross, base) = if norm_index < 5 {
        (0, norm_index)
    } else if norm_index == 9 {
        (4, 5)
    } else {
        (norm_index - 4, 4)
    };
    grid_pos_on_side((base, cross), side)
}

/// The grid cell of slot `index` of the home lane of board side `side`: the
/// lane runs inward from the side's starting cell, one step back across.
pub fn get_grid_home_pos(index: usize, side: usize) -> (r: (i32, i32))
    requires
        side < 4,
        index < COORD_LIMIT,
    ensures
        r.0 == grid_at(index + 1, -1, side as int).0,
        r.1 == grid_at(index + 1, -1, side as int).1,
{
    grid_pos_on_side(((index + 1) as i32, -1), side)
}

} // verus!
