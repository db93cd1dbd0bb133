//! Single-ray traversal of the maze grid. A ray starts at the player and
//! advances in unit steps along a fixed-point direction vector until the
//! cell under it is not open floor (a hit) or it leaves the grid (a miss,
//! reported with a large distance and a space impact). Because the steps
//! are whole world units and the direction components are fixed point, the
//! whole traversal is exact integer arithmetic.

use vstd::prelude::*;
use crate::framebuffer::Framebuffer;
use crate::maze::{Maze, spec_cell_of_fp, cell_of_fp, MAZE_DIM_MAX};
use crate::player::Player;
use crate::render::lemma_idx_in_range;
use crate::framebuffer::pix_idx;

verus! {

/// Unit steps a ray may take before the traversal gives up and reports a
/// miss; enough to cross any maze the engine accepts many times over.
pub const MAX_RAY_STEPS: usize = 100000;

/// Distance reported for a ray that left the grid, in fixed point: far
/// beyond every wall.
pub const MISS_DISTANCE_FP: i64 = 0x10_0000_0000;

/// What a ray found: its travelled distance in fixed-point world pixels,
/// the cell character at the hit, and a horizontal texture coordinate in
/// [0, 128).
pub struct Intersect {
    pub distance: i64,
    pub impact: char,
    pub tx: i64,
}

/// A ray for the specification: start position, direction (cosine and sine
/// of its angle, fixed point) and the cell size, all as mathematical
/// integers.
pub ghost struct Ray {
    pub px: int,
    pub py: int,
    pub ca: int,
    pub sa: int,
    pub block: int,
}

/// Position of the ray after k unit steps, horizontal component.
pub open spec fn ray_pos_x(r: Ray, k: int) -> int {
    r.px + k * r.ca
}

/// Position of the ray after k unit steps, vertical component.
pub open spec fn ray_pos_y(r: Ray, k: int) -> int {
    r.py + k * r.sa
}

/// Maze column under the ray after k steps.
pub open spec fn ray_col(r: Ray, k: int) -> int {
    spec_cell_of_fp(ray_pos_x(r, k), r.block)
}

/// Maze row under the ray after k steps.
pub open spec fn ray_row(r: Ray, k: int) -> int {
    spec_cell_of_fp(ray_pos_y(r, k), r.block)
}

/// The traversal stops at step k: the cell under the ray is outside the
/// grid or is not open floor.
pub open spec fn ray_stopped(grid: Seq<Seq<char>>, r: Ray, k: int) -> bool {
    let row = ray_row(r, k);
    let col = ray_col(r, k);
    !(row < grid.len() && col < grid[row].len() && grid[row][col] == ' ')
}

/// The cell under the ray at step k lies outside the grid.
pub open spec fn ray_out_of_grid(grid: Seq<Seq<char>>, r: Ray, k: int) -> bool {
    let row = ray_row(r, k);
    let col = ray_col(r, k);
    !(row < grid.len() && col < grid[row].len())
}

/// The first step at which the traversal stops, beginning the search at
/// step k with the given fuel; None when the fuel runs out first.
pub open spec fn first_stop(grid: Seq<Seq<char>>, r: Ray, k: nat, fuel: nat) -> Option<nat>
    decreases fuel,
{
    if ray_stopped(grid, r, k as int) {
        Some(k)
    } else if fuel == 0 {
        None
    } else {
        first_stop(grid, r, (k + 1) as nat, (fuel - 1) as nat)
    }
}

/// The horizontal texture coordinate of a hit at step k: taken from the
/// coordinate running along the struck face (the vertical position when the
/// last step crossed into a new column, the horizontal one otherwise),
/// reduced modulo the cell size and scaled to [0, 128).
pub open spec fn spec_tx(r: Ray, k: int) -> int {
    let vertical = k >= 1 && ray_col(r, k) != ray_col(r, k - 1);
    let coord = if vertical {
        ray_pos_y(r, k)
    } else {
        ray_pos_x(r, k)
    };
    let w = if coord < 0 {
        0
    } else {
        coord / 65536
    };
    (w % r.block) * 128 / r.block
}

/// The intersect a ray yields: a miss when it leaves the grid or exhausts
/// its steps, otherwise the hit cell's character, the distance travelled
/// and the texture coordinate of the struck face.
pub open spec fn spec_cast(grid: Seq<Seq<char>>, r: Ray) -> Intersect {
    match first_stop(grid, r, 0, MAX_RAY_STEPS as nat) {
        Some(k) => {
            if ray_out_of_grid(grid, r, k as int) {
                Intersect { distance: MISS_DISTANCE_FP, impact: ' ', tx: 0 }
            } else {
                Intersect {
                    distance: (k * 65536) as i64,
                    impact: grid[ray_row(r, k as int)][ray_col(r, k as int)],
                    tx: spec_tx(r, k as int) as i64,
                }
            }
        },
        None => Intersect { distance: MISS_DISTANCE_FP, impact: ' ', tx: 0 },
    }
}

/// The ray of a cast from the player's position.
pub open spec fn player_ray(player: Player, cos_a: int, sin_a: int, block: int) -> Ray {
    Ray { px: player.x as int, py: player.y as int, ca: cos_a, sa: sin_a, block }
}

/// The framebuffer after a ray's debug plot, starting at step k with the
/// given fuel: each traversed sample's world pixel is painted with the
/// color, the stopping step included.
pub open spec fn spec_ray_plot(
    grid: Seq<Seq<char>>,
    r: Ray,
    w: int,
    h: int,
    color: u32,
    k: nat,
    fuel: nat,
    buf: Seq<u32>,
) -> Seq<u32>
    decreases fuel,
{
    let xw = spec_cell_of_fp(ray_pos_x(r, k as int), 1);
    let yw = spec_cell_of_fp(ray_pos_y(r, k as int), 1);
    let b1 = if 0 <= xw < w && 0 <= yw < h {
        buf.update(pix_idx(w, xw, yw), color)
    } else {
        buf
    };
    if ray_stopped(grid, r, k as int) || fuel == 0 {
        b1
    } else {
        spec_ray_plot(grid, r, w, h, color, (k + 1) as nat, (fuel - 1) as nat, b1)
    }
}

/// Casts one ray from the player along the direction whose cosine and sine
/// are given in fixed point. When `draw_line` is set the traversed points
/// are also plotted into the framebuffer with the current color (the 2D
/// debug view's ray fan); otherwise the framebuffer is untouched.
pub fn cast_ray(
    fb: &mut Framebuffer,
    maze: &Maze,
    player: &Player,
    cos_a: i64,
    sin_a: i64,
    block_size: usize,
    draw_line: bool,
) -> (r: Intersect)
    requires
        old(fb).wf(),
        maze.dims_bounded(),
        1 <= block_size <= MAZE_DIM_MAX,
        player.pos_bounded(),
        -65536 <= cos_a <= 65536,
        -65536 <= sin_a <= 65536,
    ensures
        final(fb).wf(),
        final(fb).width == old(fb).width,
        final(fb).height == old(fb).height,
        final(fb).background_color == old(fb).background_color,
        final(fb).current_color == old(fb).current_color,
        !draw_line ==> final(fb).buffer@ == old(fb).buffer@,
        draw_line ==> final(fb).buffer@ == spec_ray_plot(
            maze.cells(),
            player_ray(*player, cos_a as int, sin_a as int, block_size as int),
            old(fb).width as int,
            old(fb).height as int,
            old(fb).current_color,
            0,
            MAX_RAY_STEPS as nat,
            old(fb).buffer@,
        ),
        forall|i: int|
            0 <= i < final(fb).buffer.len() ==> final(fb).buffer[i] == old(fb).buffer[i]
                || final(fb).buffer[i] == old(fb).current_color,
        r == spec_cast(
            maze.cells(),
            player_ray(*player, cos_a as int, sin_a as int, block_size as int),
        ),
        0 <= r.distance <= MISS_DISTANCE_FP,
        0 <= r.tx < 128,
{
    let ghost grid = maze.cells();
    let ghost ray = player_ray(*player, cos_a as int, sin_a as int, block_size as int);
    let px = player.x;
    let py = player.y;
    let mut k: usize = 0;
    let mut prev_col: usize = 0;
    loop
        invariant
            fb.wf(),
            fb.width == old(fb).width,
            fb.height == old(fb).height,
            fb.background_color == old(fb).background_color,
            fb.current_color == old(fb).current_color,
            !draw_line ==> fb.buffer@ == old(fb).buffer@,
            draw_line ==> spec_ray_plot(
                grid,
                ray,
                old(fb).width as int,
                old(fb).height as int,
                old(fb).current_color,
                k as nat,
                (MAX_RAY_STEPS - k) as nat,
                fb.buffer@,
            ) == spec_ray_plot(
                grid,
                ray,
                old(fb).width as int,
                old(fb).height as int,
                old(fb).current_color,
                0,
                MAX_RAY_STEPS as nat,
                old(fb).buffer@,
            ),
            fb.buffer.len() == old(fb).buffer.len(),
            forall|i: int|
                0 <= i < fb.buffer.len() ==> fb.buffer[i] == old(fb).buffer[i] || fb.buffer[i]
                    == old(fb).current_color,
            maze.dims_bounded(),
            grid == maze.cells(),
            ray == player_ray(*player, cos_a as int, sin_a as int, block_size as int),
            px == player.x,
            py == player.y,
            player.pos_bounded(),
            -65536 <= cos_a <= 65536,
            -65536 <= sin_a <= 65536,
            1 <= block_size <= MAZE_DIM_MAX,
            k <= MAX_RAY_STEPS,
            first_stop(grid, ray, 0, MAX_RAY_STEPS as nat) == first_stop(
                grid,
                ray,
                k as nat,
                (MAX_RAY_STEPS - k) as nat,
            ),
            k >= 1 ==> prev_col == ray_col(ray, k - 1),
        decreases MAX_RAY_STEPS - k,
    {
        proof {
            assert(-0x2_0000_0000 <= (k as int) * cos_a <= 0x2_0000_0000) by (nonlinear_arith)
                requires
                    0 <= k <= 100000,
                    -65536 <= cos_a <= 65536,
            ;
            assert(-0x2_0000_0000 <= (k as int) * sin_a <= 0x2_0000_0000) by (nonlinear_arith)
                requires
                    0 <= k <= 100000,
                    -65536 <= sin_a <= 65536,
            ;
        }
        let x: i64 = px + (k as i64) * cos_a;
        let y: i64 = py + (k as i64) * sin_a;
        assert(x == ray_pos_x(ray, k as int));
        assert(y == ray_pos_y(ray, k as int));
        let col: usize = cell_of_fp(x, block_size);
        let row: usize = cell_of_fp(y, block_size);

        let ghost pre_plot = fb.buffer@;
        if draw_line {
            let xw: usize = if x < 0 {
                0
            } else {
                assert((x as u64) / 65536 < 0x2000_0000_0000) by (nonlinear_arith)
                    requires x as u64 <= 0x2000_0000_0000,
                ;
                ((x as u64) / 65536) as usize
            };
            let yw: usize = if y < 0 {
                0
            } else {
                assert((y as u64) / 65536 < 0x2000_0000_0000) by (nonlinear_arith)
                    requires y as u64 <= 0x2000_0000_0000,
                ;
                ((y as u64) / 65536) as usize
            };
            fb.point(xw, yw);
            proof {
                assert(xw == spec_cell_of_fp(ray_pos_x(ray, k as int), 1));
                assert(yw == spec_cell_of_fp(ray_pos_y(ray, k as int), 1));
                if fb.in_bounds(xw as int, yw as int) {
                    lemma_idx_in_range(fb.width as int, fb.height as int, xw as int, yw as int);
                    assert(fb.buffer@ == pre_plot.update(
                        pix_idx(old(fb).width as int, xw as int, yw as int),
                        old(fb).current_color,
                    ));
                } else {
                    assert(fb.buffer@ == pre_plot);
                }
                assert(fb.buffer@ == ({
                    let sxw = spec_cell_of_fp(ray_pos_x(ray, k as int), 1);
                    let syw = spec_cell_of_fp(ray_pos_y(ray, k as int), 1);
                    if 0 <= sxw < old(fb).width && 0 <= syw < old(fb).height {
                        pre_plot.update(
                            pix_idx(old(fb).width as int, sxw, syw),
                            old(fb).current_color,
                        )
                    } else {
                        pre_plot
                    }
                }));
            }
        }

        let open_here = maze.is_open(col, row);
        if !open_here {
            assert(ray_stopped(grid, ray, k as int));
            assert(first_stop(grid, ray, k as nat, (MAX_RAY_STEPS - k) as nat) == Some(k as nat));
            proof {
                if draw_line {
                    assert(spec_ray_plot(
                        grid,
                        ray,
                        old(fb).width as int,
                        old(fb).height as int,
                        old(fb).current_color,
                        k as nat,
                        (MAX_RAY_STEPS - k) as nat,
                        pre_plot,
                    ) == fb.buffer@);
                }
            }
            let in_grid = row < maze.rows() && col < maze.row_len(row);
            if !in_grid {
                assert(ray_out_of_grid(grid, ray, k as int));
                return Intersect { distance: MISS_DISTANCE_FP, impact: ' ', tx: 0 };
            }
            let impact = maze.cell_at(row, col);
            let vertical = k >= 1 && col != prev_col;
            let coord: i64 = if vertical {
                y
            } else {
                x
            };
            let w: u64 = if coord < 0 {
                0
            } else {
                (coord as u64) / 65536
            };
            let m: u64 = w % (block_size as u64);
            assert(m < block_size) by (nonlinear_arith)
                requires
                    m == w % (block_size as u64),
                    1 <= block_size as u64,
                    block_size <= MAZE_DIM_MAX,
            ;
            let txv: u64 = m * 128 / (block_size as u64);
            assert(txv < 128) by (nonlinear_arith)
                requires
                    txv == m * 128 / (block_size as int),
                    m < block_size as u64,
                    1 <= block_size as u64,
            ;
            let distance: i64 = (k as i64) * 65536;
            return Intersect { distance, impact, tx: txv as i64 };
        }
        assert(!ray_stopped(grid, ray, k as int));
        if k == MAX_RAY_STEPS {
            assert(first_stop(grid, ray, k as nat, 0) is None);
            proof {
                if draw_line {
                    assert(spec_ray_plot(
                        grid,
                        ray,
                        old(fb).width as int,
                        old(fb).height as int,
                        old(fb).current_color,
                        k as nat,
                        0,
                        pre_plot,
                    ) == fb.buffer@);
                }
            }
            return Intersect { distance: MISS_DISTANCE_FP, impact: ' ', tx: 0 };
        }
        proof {
            assert(first_stop(grid, ray, k as nat, (MAX_RAY_STEPS - k) as nat) == first_stop(
                grid,
                ray,
                (k + 1) as nat,
                (MAX_RAY_STEPS - (k + 1)) as nat,
            ));
            if draw_line {
                assert(spec_ray_plot(
                    grid,
                    ray,
                    old(fb).width as int,
                    old(fb).height as int,
                    old(fb).current_color,
                    k as nat,
                    (MAX_RAY_STEPS - k) as nat,
                    pre_plot,
                ) == spec_ray_plot(
                    grid,
                    ray,
                    old(fb).width as int,
                    old(fb).height as int,
                    old(fb).current_color,
                    (k + 1) as nat,
                    (MAX_RAY_STEPS - (k + 1)) as nat,
                    fb.buffer@,
                ));
            }
        }
        prev_col = col;
        k = k + 1;
    }
}

} // verus!
