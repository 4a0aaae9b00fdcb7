use vstd::prelude::*;

verus! {

// The four grid directions are numbered 0..4 with a fixed meaning:
// dir 0 = (-1, 0), dir 1 = (0, +1), dir 2 = (+1, 0), dir 3 = (0, -1).
// Connections between compact spans, the diagonal taps of the chamfer
// passes and contour walking all rely on this numbering.

/// X offset of a grid direction.
pub open spec fn dir_offset_x_spec(dir: int) -> int {
    if dir == 0 {
        -1
    } else if dir == 2 {
        1
    } else {
        0
    }
}

/// Z offset of a grid direction.
pub open spec fn dir_offset_z_spec(dir: int) -> int {
    if dir == 1 {
        1
    } else if dir == 3 {
        -1
    } else {
        0
    }
}

/// X offset of a grid direction.
pub fn dir_offset_x(dir: usize) -> (r: i32)
    requires
        dir < 4,
    ensures
        r as int == dir_offset_x_spec(dir as int),
{
    if dir == 0 {
        -1
    } else if dir == 2 {
        1
    } else {
        0
    }
}

/// Z offset of a grid direction.
pub fn dir_offset_z(dir: usize) -> (r: i32)
    requires
        dir < 4,
    ensures
        r as int == dir_offset_z_spec(dir as int),
{
    if dir == 1 {
        1
    } else if dir == 3 {
        -1
    } else {
        0
    }
}

} // verus!
