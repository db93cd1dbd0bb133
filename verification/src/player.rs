//! The player: a position in fixed-point world pixels, a heading angle and a
//! field of view, both in fixed-point radians. One tick of input rotates the
//! heading and then tries to translate along it; a move is accepted exactly
//! when the target cell of the maze is open, otherwise the position is
//! unchanged.

use vstd::prelude::*;
use crate::maze::{Maze, spec_cell_of_fp, cell_of_fp, MAZE_DIM_MAX};

verus! {

/// World pixels moved per tick while a translate key is held.
pub const MOVE_SPEED: i64 = 10;

/// Radians turned per tick while a rotate key is held: pi / 50 in 16.16
/// fixed point.
pub const ROTATION_SPEED_FP: i64 = 4118;

/// Coordinates and angles the engine works with stay inside this bound,
/// which keeps every product of the movement arithmetic inside `i64`.
pub const COORD_LIMIT_FP: i64 = 0x1000_0000_0000;

pub struct Player {
    /// Horizontal world position, fixed point.
    pub x: i64,
    /// Vertical world position, fixed point.
    pub y: i64,
    /// Heading angle in fixed-point radians.
    pub a: i64,
    /// Field of view in fixed-point radians.
    pub fov: i64,
}

/// One tick's worth of keyboard state, as the host polled it.
pub struct InputState {
    pub left: bool,
    pub right: bool,
    pub up: bool,
    pub down: bool,
}

/// The heading after one tick of rotation keys: left turns by
/// `-ROTATION_SPEED_FP`, right by `+ROTATION_SPEED_FP`.
pub open spec fn spec_rotated(a: int, left: bool, right: bool) -> int {
    let a1 = if left {
        a - ROTATION_SPEED_FP
    } else {
        a
    };
    if right {
        a1 + ROTATION_SPEED_FP
    } else {
        a1
    }
}

/// The position one tick of translation keys aims for: down steps against
/// the heading, otherwise up steps along it (down wins when both are held,
/// and both steps start from the current position).
pub open spec fn spec_move_target(x: int, y: int, cos_a: int, sin_a: int, up: bool, down: bool) -> (
    int,
    int,
) {
    if down {
        (x - 10 * cos_a, y - 10 * sin_a)
    } else if up {
        (x + 10 * cos_a, y + 10 * sin_a)
    } else {
        (x, y)
    }
}

impl Player {
    pub open spec fn pos_bounded(&self) -> bool {
        &&& -COORD_LIMIT_FP <= self.x <= COORD_LIMIT_FP
        &&& -COORD_LIMIT_FP <= self.y <= COORD_LIMIT_FP
    }
}

/// Adds a heading delta (the host's mouse movement, already scaled).
pub fn add_heading_delta(player: &mut Player, delta: i64)
    requires
        -COORD_LIMIT_FP <= old(player).a <= COORD_LIMIT_FP,
        -COORD_LIMIT_FP <= delta <= COORD_LIMIT_FP,
    ensures
        *final(player) == (Player { a: (old(player).a + delta) as i64, ..*old(player) }),
{
    player.a = player.a + delta;
}

/// One tick of input: rotate the heading by the rotation keys, then try to
/// translate along it by the translation keys; `cos_a` and `sin_a` are the
/// cosine and sine of the heading after rotation, as fixed-point values.
/// The move is accepted exactly when the maze cell containing the target
/// position is open, so a successful update always leaves the player in an
/// open cell.
pub fn process_events(
    player: &mut Player,
    maze: &Maze,
    input: &InputState,
    cos_a: i64,
    sin_a: i64,
    block_size: usize,
)
    requires
        1 <= block_size <= MAZE_DIM_MAX,
        old(player).pos_bounded(),
        -COORD_LIMIT_FP <= old(player).a <= COORD_LIMIT_FP,
        -65536 <= cos_a <= 65536,
        -65536 <= sin_a <= 65536,
    ensures
        final(player).fov == old(player).fov,
        final(player).a == spec_rotated(old(player).a as int, input.left, input.right),
        ({
            let (nx, ny) = spec_move_target(
                old(player).x as int,
                old(player).y as int,
                cos_a as int,
                sin_a as int,
                input.up,
                input.down,
            );
            if maze.spec_is_open(
                spec_cell_of_fp(nx, block_size as int),
                spec_cell_of_fp(ny, block_size as int),
            ) {
                final(player).x == nx && final(player).y == ny
            } else {
                final(player).x == old(player).x && final(player).y == old(player).y
            }
        }),
        (final(player).x != old(player).x || final(player).y != old(player).y)
            ==> maze.spec_is_open(
            spec_cell_of_fp(final(player).x as int, block_size as int),
            spec_cell_of_fp(final(player).y as int, block_size as int),
        ),
{
    if input.left {
        player.a = player.a - ROTATION_SPEED_FP;
    }
    if input.right {
        player.a = player.a + ROTATION_SPEED_FP;
    }

    let mut new_x: i64 = player.x;
    let mut new_y: i64 = player.y;
    if input.up {
        new_x = player.x + MOVE_SPEED * cos_a;
        new_y = player.y + MOVE_SPEED * sin_a;
    }
    if input.down {
        new_x = player.x - MOVE_SPEED * cos_a;
        new_y = player.y - MOVE_SPEED * sin_a;
    }

    let i: usize = cell_of_fp(new_x, block_size);
    let j: usize = cell_of_fp(new_y, block_size);
    if maze.is_open(i, j) {
        player.x = new_x;
        player.y = new_y;
    }
}

} // verus!
