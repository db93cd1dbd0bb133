//! The per-column renderer: textured sky and floor bands, wall columns
//! projected from ray distances with fisheye correction, the top-down debug
//! view, and the minimap. Every pixel goes through `Framebuffer::point`, so
//! nothing here can write outside the pixel grid.

use vstd::prelude::*;
use crate::framebuffer::{Framebuffer, pix_idx, lemma_flat_xy, spec_fill_rect};
use crate::texture::Texture;
use crate::maze::{Maze, MAZE_DIM_MAX, spec_cell_of_fp};
use crate::player::Player;
use crate::caster::{cast_ray, spec_cast, player_ray, spec_ray_plot, MAX_RAY_STEPS};
use crate::fixed::{fp_mul, spec_fp_mul};

verus! {

/// Height cap the renderer accepts for a framebuffer; keeps all the
/// projection arithmetic inside `u64`.
pub const SCREEN_DIM_MAX: usize = 8192;

/// Dark green drawn for goal wall columns.
pub const GOAL_WALL_COLOR: u32 = 0x4c9141;

/// The color a wall cell shows at a texture coordinate: wall cells sample
/// the wall texture, anything else is black.
pub open spec fn spec_cell_color(cell: char, tx: int, ty: int, wall: &Texture) -> u32 {
    if cell == '+' || cell == '-' || cell == '|' || cell == 'g' {
        wall.spec_sample(tx, ty)
    } else {
        0
    }
}

/// Maps a maze cell and a texture coordinate to a color: wall cells (the
/// goal wall among them) sample the wall texture, open cells are black.
pub fn cell_to_texture_color(cell: char, tx: u32, ty: u32, wall: &Texture) -> (c: u32)
    requires
        wall.wf(),
    ensures
        c == spec_cell_color(cell, tx as int, ty as int, wall),
{
    if cell == '+' || cell == '-' || cell == '|' || cell == 'g' {
        wall.get_pixel_color(tx, ty)
    } else {
        0x000000
    }
}

/// Pixel indices are injective on the grid: two distinct in-bounds pixels
/// never share a row-major index.
pub(crate) proof fn lemma_idx_distinct(w: int, x1: int, y1: int, x2: int, y2: int)
    requires
        0 <= x1 < w,
        0 <= x2 < w,
        0 <= y1,
        0 <= y2,
        !(x1 == x2 && y1 == y2),
    ensures
        y1 * w + x1 != y2 * w + x2,
{
    assert(y1 * w + x1 != y2 * w + x2) by (nonlinear_arith)
        requires
            0 <= x1 < w,
            0 <= x2 < w,
            0 <= y1,
            0 <= y2,
            !(x1 == x2 && y1 == y2),
    ;
}

/// An in-bounds pixel's row-major index lies inside the buffer.
pub(crate) proof fn lemma_idx_in_range(w: int, h: int, x: int, y: int)
    requires
        0 <= x < w,
        0 <= y < h,
    ensures
        0 <= y * w + x < w * h,
{
    assert(0 <= y * w + x < w * h) by (nonlinear_arith)
        requires
            0 <= x < w,
            0 <= y < h,
    ;
}

/// The color of a cell in the top-down view: red for the goal, black for
/// everything else.
pub open spec fn spec_cell_2d_color(cell: char) -> u32 {
    if cell == 'g' {
        0xFF0000
    } else {
        0
    }
}

/// Fills the square of side `block_size` at origin (xo, yo) with the cell's
/// top-down color; pixels outside the framebuffer are dropped.
#[verifier::loop_isolation(false)]
pub fn draw_cell(
    framebuffer: &mut Framebuffer,
    xo: usize,
    yo: usize,
    block_size: usize,
    cell: char,
)
    requires
        old(framebuffer).wf(),
        xo + block_size <= usize::MAX,
        yo + block_size <= usize::MAX,
    ensures
        final(framebuffer).wf(),
        final(framebuffer).width == old(framebuffer).width,
        final(framebuffer).height == old(framebuffer).height,
        final(framebuffer).background_color == old(framebuffer).background_color,
        block_size >= 1 ==> final(framebuffer).current_color == spec_cell_2d_color(cell),
        block_size == 0 ==> final(framebuffer).current_color == old(framebuffer).current_color,
        forall|x: int, y: int|
            old(framebuffer).in_bounds(x, y) ==> #[trigger] final(framebuffer).buffer[old(
                framebuffer,
            ).idx(x, y)] == (if xo <= x < xo + block_size && yo <= y < yo + block_size {
                spec_cell_2d_color(cell)
            } else {
                old(framebuffer).buffer[old(framebuffer).idx(x, y)]
            }),
{
    let color: u32 = if cell == 'g' {
        0xFF0000
    } else {
        0x000000
    };
    let mut x: usize = xo;
    while x < xo + block_size
        invariant
            xo <= x <= xo + block_size,
            framebuffer.wf(),
            framebuffer.width == old(framebuffer).width,
            framebuffer.height == old(framebuffer).height,
            framebuffer.background_color == old(framebuffer).background_color,
            x > xo ==> framebuffer.current_color == color,
            x == xo ==> framebuffer.current_color == old(framebuffer).current_color,
            forall|x2: int, y2: int|
                old(framebuffer).in_bounds(x2, y2) ==> #[trigger] framebuffer.buffer[old(
                    framebuffer,
                ).idx(x2, y2)] == (if xo <= x2 < x && yo <= y2 < yo + block_size {
                    spec_cell_2d_color(cell)
                } else {
                    old(framebuffer).buffer[old(framebuffer).idx(x2, y2)]
                }),
        decreases xo + block_size - x,
    {
        let mut y: usize = yo;
        while y < yo + block_size
            invariant
                yo <= y <= yo + block_size,
                xo <= x < xo + block_size,
                framebuffer.wf(),
                framebuffer.width == old(framebuffer).width,
                framebuffer.height == old(framebuffer).height,
                framebuffer.background_color == old(framebuffer).background_color,
                y > yo || x > xo ==> framebuffer.current_color == color,
                y == yo && x == xo ==> framebuffer.current_color == old(
                    framebuffer,
                ).current_color,
                forall|x2: int, y2: int|
                    old(framebuffer).in_bounds(x2, y2) ==> #[trigger] framebuffer.buffer[old(
                        framebuffer,
                    ).idx(x2, y2)] == (if (xo <= x2 < x && yo <= y2 < yo + block_size) || (x2 == x
                        && yo <= y2 < y) {
                        spec_cell_2d_color(cell)
                    } else {
                        old(framebuffer).buffer[old(framebuffer).idx(x2, y2)]
                    }),
            decreases yo + block_size - y,
        {
            let ghost pre = framebuffer.buffer@;
            framebuffer.set_current_color(color);
            framebuffer.point(x, y);
            proof {
                if framebuffer.in_bounds(x as int, y as int) {
                    lemma_idx_in_range(
                        framebuffer.width as int,
                        framebuffer.height as int,
                        x as int,
                        y as int,
                    );
                    assert forall|x2: int, y2: int|
                        old(framebuffer).in_bounds(x2, y2) && !(x2 == x && y2 == y)
                            implies #[trigger] framebuffer.buffer[old(framebuffer).idx(x2, y2)]
                        == pre[old(framebuffer).idx(x2, y2)] by {
                        lemma_idx_distinct(
                            old(framebuffer).width as int,
                            x2,
                            y2,
                            x as int,
                            y as int,
                        );
                        lemma_idx_in_range(
                            framebuffer.width as int,
                            framebuffer.height as int,
                            x2,
                            y2,
                        );
                    }
                }
            }
            y = y + 1;
        }
        x = x + 1;
    }
}

/// Fills the rows [y0, y1) of the framebuffer with the texture, column x
/// sampling `x * tex.width / width` and row y sampling
/// `(y - y0) * tex.height / denom`; used for the sky (upper half) and the
/// floor (lower half).
#[verifier::loop_isolation(false)]
pub fn fill_band(fb: &mut Framebuffer, tex: &Texture, y0: usize, y1: usize, denom: usize)
    requires
        old(fb).wf(),
        tex.wf(),
        1 <= old(fb).width <= SCREEN_DIM_MAX,
        old(fb).height <= SCREEN_DIM_MAX,
        tex.width <= 65536,
        tex.height <= 65536,
        y0 <= y1 <= old(fb).height,
        1 <= denom,
        y1 - y0 <= denom + 1,
    ensures
        final(fb).wf(),
        final(fb).width == old(fb).width,
        final(fb).height == old(fb).height,
        final(fb).background_color == old(fb).background_color,
        forall|x: int, y: int|
            old(fb).in_bounds(x, y) ==> #[trigger] final(fb).buffer[old(fb).idx(x, y)] == (if y0
                <= y < y1 {
                tex.spec_sample(
                    x * tex.width / old(fb).width as int,
                    (y - y0) * tex.height / denom as int,
                )
            } else {
                old(fb).buffer[old(fb).idx(x, y)]
            }),
{
    let w: usize = fb.width;
    let mut x: usize = 0;
    while x < w
        invariant
            x <= w,
            fb.wf(),
            fb.width == old(fb).width,
            fb.height == old(fb).height,
            fb.background_color == old(fb).background_color,
            forall|x2: int, y2: int|
                old(fb).in_bounds(x2, y2) ==> #[trigger] fb.buffer[old(fb).idx(x2, y2)] == (if x2
                    < x && y0 <= y2 < y1 {
                    tex.spec_sample(
                        x2 * tex.width / old(fb).width as int,
                        (y2 - y0) * tex.height / denom as int,
                    )
                } else {
                    old(fb).buffer[old(fb).idx(x2, y2)]
                }),
        decreases w - x,
    {
        assert(x * tex.width / (w as int) < tex.width || tex.width == 0) by (nonlinear_arith)
            requires
                x < w,
                1 <= w,
                0 <= tex.width,
        ;
        assert(x * tex.width <= SCREEN_DIM_MAX * 65536) by (nonlinear_arith)
            requires
                x < w,
                w <= SCREEN_DIM_MAX,
                tex.width <= 65536,
        ;
        let tx: usize = x * tex.width / w;
        assert(tx < 65536 || tex.width == 0) by (nonlinear_arith)
            requires
                tx == x * tex.width / (w as int),
                x < w,
                1 <= w,
                tex.width <= 65536,
        ;
        let mut y: usize = y0;
        while y < y1
            invariant
                y0 <= y <= y1,
                x < w,
                tx == x * tex.width / old(fb).width as int,
                tx < 65536,
                fb.wf(),
                fb.width == old(fb).width,
                fb.height == old(fb).height,
                fb.background_color == old(fb).background_color,
                forall|x2: int, y2: int|
                    old(fb).in_bounds(x2, y2) ==> #[trigger] fb.buffer[old(fb).idx(x2, y2)] == (
                    if (x2 < x && y0 <= y2 < y1) || (x2 == x && y0 <= y2 < y) {
                        tex.spec_sample(
                            x2 * tex.width / old(fb).width as int,
                            (y2 - y0) * tex.height / denom as int,
                        )
                    } else {
                        old(fb).buffer[old(fb).idx(x2, y2)]
                    }),
            decreases y1 - y,
        {
            assert((y - y0) * tex.height <= SCREEN_DIM_MAX * 65536) by (nonlinear_arith)
                requires
                    0 <= y - y0,
                    y - y0 <= SCREEN_DIM_MAX,
                    tex.height <= 65536,
            ;
            let ty: usize = (y - y0) * tex.height / denom;
            assert(ty <= tex.height) by (nonlinear_arith)
                requires
                    ty == (y - y0) * tex.height / (denom as int),
                    0 <= y - y0,
                    y - y0 <= denom,
                    1 <= denom,
                    0 <= tex.height,
            ;
            let color = tex.get_pixel_color(tx as u32, ty as u32);
            let ghost pre = fb.buffer@;
            fb.set_current_color(color);
            fb.point(x, y);
            proof {
                if fb.in_bounds(x as int, y as int) {
                    lemma_idx_in_range(fb.width as int, fb.height as int, x as int, y as int);
                    assert forall|x2: int, y2: int|
                        old(fb).in_bounds(x2, y2) && !(x2 == x && y2 == y)
                            implies #[trigger] fb.buffer[old(fb).idx(x2, y2)] == pre[old(fb).idx(
                        x2,
                        y2,
                    )] by {
                        lemma_idx_distinct(old(fb).width as int, x2, y2, x as int, y as int);
                        lemma_idx_in_range(fb.width as int, fb.height as int, x2, y2);
                    }
                }
            }
            y = y + 1;
        }
        x = x + 1;
    }
}

/// The vertical extent of a wall slice: for a corrected distance d (clamped
/// below to one fixed-point unit) the column's pixel height is
/// `height * 70 / d` world-projected, centered on the horizon; the top is
/// clamped at the screen edge and the reported bottom is unclamped.
pub open spec fn spec_wall_slice(height: int, d: int) -> (int, int) {
    let dd = if d < 1 {
        1
    } else {
        d
    };
    let h = height * 65536 * 70 / dd;
    let hh = height / 2;
    let top = if h / 2 <= hh {
        hh - h / 2
    } else {
        0
    };
    (top, hh + h / 2)
}

/// Computes the top (clamped at 0) and unclamped bottom of the wall slice
/// for one column at corrected distance `d`.
pub fn wall_slice(height: usize, d: i64) -> (r: (usize, u64))
    requires
        height <= SCREEN_DIM_MAX,
        0 <= d <= 0x10_0000_0000,
    ensures
        r.0 as int == spec_wall_slice(height as int, d as int).0,
        r.1 as int == spec_wall_slice(height as int, d as int).1,
        r.0 <= height / 2,
        r.0 as u64 <= r.1,
{
    let dd: u64 = if d < 1 {
        1
    } else {
        d as u64
    };
    let num: u64 = (height as u64) * 65536 * 70;
    let h: u64 = num / dd;
    let hh: u64 = (height as u64) / 2;
    let top: u64 = if h / 2 <= hh {
        hh - h / 2
    } else {
        0
    };
    (top as usize, hh + h / 2)
}

/// Paints the wall slice of column i: rows [top, bot) clipped to the
/// screen, sampling the wall texture vertically across the unclamped slice
/// (the goal wall is a solid color); every other pixel is untouched.
#[verifier::loop_isolation(false)]
pub fn draw_wall_column(
    fb: &mut Framebuffer,
    wall: &Texture,
    i: usize,
    top: usize,
    bot: u64,
    impact: char,
    tx: i64,
)
    requires
        old(fb).wf(),
        wall.wf(),
        i < old(fb).width,
        old(fb).height <= SCREEN_DIM_MAX,
        top as u64 <= bot,
        top <= old(fb).height,
        0 <= tx < 128,
    ensures
        final(fb).wf(),
        final(fb).width == old(fb).width,
        final(fb).height == old(fb).height,
        final(fb).background_color == old(fb).background_color,
        forall|x: int, y: int|
            old(fb).in_bounds(x, y) ==> #[trigger] final(fb).buffer[old(fb).idx(x, y)] == (if x
                == i && top <= y < bot {
                spec_wall_pixel(wall, impact, tx as int, top as int, bot as int, y)
            } else {
                old(fb).buffer[old(fb).idx(x, y)]
            }),
{
    let bot_clamped: usize = if bot < (fb.height as u64) {
        bot as usize
    } else {
        fb.height
    };
    let mut y: usize = top;
    while y < bot_clamped
        invariant
            top <= y,
            y <= bot_clamped || y == top,
            bot_clamped <= fb.height,
            bot_clamped as u64 <= bot,
            fb.wf(),
            fb.width == old(fb).width,
            fb.height == old(fb).height,
            fb.background_color == old(fb).background_color,
            forall|x2: int, y2: int|
                old(fb).in_bounds(x2, y2) ==> #[trigger] fb.buffer[old(fb).idx(x2, y2)] == (if x2
                    == i && top <= y2 < y {
                    spec_wall_pixel(wall, impact, tx as int, top as int, bot as int, y2)
                } else {
                    old(fb).buffer[old(fb).idx(x2, y2)]
                }),
        decreases bot_clamped - y,
    {
        let denom: u64 = bot - (top as u64);
        let ty: u64 = ((y - top) as u64) * 128 / denom;
        let color: u32 = if impact == 'g' {
            GOAL_WALL_COLOR
        } else {
            assert((y - top) * 128 / (denom as int) < 128 || denom == 0) by (nonlinear_arith)
                requires
                    0 <= y - top,
                    (y as u64) < denom + (top as u64),
            ;
            cell_to_texture_color(impact, tx as u32, ty as u32, wall)
        };
        let ghost pre = fb.buffer@;
        fb.set_current_color(color);
        fb.point(i, y);
        proof {
            if fb.in_bounds(i as int, y as int) {
                lemma_idx_in_range(fb.width as int, fb.height as int, i as int, y as int);
            }
            assert forall|x2: int, y2: int|
                old(fb).in_bounds(x2, y2) && !(x2 == i && y2 == y) implies #[trigger] fb.buffer[old(
                fb,
            ).idx(x2, y2)] == pre[old(fb).idx(x2, y2)] by {
                lemma_idx_distinct(old(fb).width as int, x2, y2, i as int, y as int);
                lemma_idx_in_range(fb.width as int, fb.height as int, x2, y2);
            }
        }
        y = y + 1;
    }
}

/// The color of row y inside a wall slice spanning [top, bot): the goal
/// wall is a solid green, other walls sample the texture row scaled across
/// the whole (unclamped) slice.
pub open spec fn spec_wall_pixel(
    wall: &Texture,
    impact: char,
    tx: int,
    top: int,
    bot: int,
    y: int,
) -> u32 {
    if impact == 'g' {
        GOAL_WALL_COLOR
    } else {
        spec_cell_color(impact, tx, (y - top) * 128 / (bot - top), wall)
    }
}

/// The per-column direction table the host supplies for one frame: the
/// cosine and sine of each column's ray angle, and the cosine of the
/// column's offset from the view heading (the fisheye correction factor),
/// all in fixed point.
pub struct ColumnDir {
    pub cos_a: i64,
    pub sin_a: i64,
    pub cos_corr: i64,
}

pub open spec fn dir_ok(d: ColumnDir) -> bool {
    &&& -65536 <= d.cos_a <= 65536
    &&& -65536 <= d.sin_a <= 65536
    &&& 1 <= d.cos_corr <= 65536
}

/// The depth the 3D pass leaves in a column of the z-buffer: the distance
/// the column's ray travelled, corrected by the column's fisheye factor.
pub open spec fn spec_column_distance(
    grid: Seq<Seq<char>>,
    player: Player,
    d: ColumnDir,
    block: int,
) -> int {
    spec_fp_mul(
        spec_cast(grid, player_ray(player, d.cos_a as int, d.sin_a as int, block)).distance as int,
        d.cos_corr as int,
    )
}

/// The framebuffer after one textured band fill over rows [y0, y1), column
/// x sampling `x * tex.width / w` and row y sampling
/// `(y - y0) * tex.height / denom`.
pub open spec fn spec_band(buf: Seq<u32>, w: int, tex: &Texture, y0: int, y1: int, denom: int) -> Seq<u32> {
    Seq::new(
        buf.len(),
        |i: int|
            {
                let x = i % w;
                let y = i / w;
                if y0 <= y < y1 {
                    tex.spec_sample(x * tex.width / w, (y - y0) * tex.height / denom)
                } else {
                    buf[i]
                }
            },
    )
}

/// The framebuffer after column i's wall slice is painted: the projected
/// slice of the column's fisheye-corrected ray distance, goal walls solid,
/// other walls textured.
pub open spec fn spec_column_frame(
    grid: Seq<Seq<char>>,
    player: Player,
    dir: ColumnDir,
    block: int,
    wall: &Texture,
    w: int,
    h: int,
    i: int,
    buf: Seq<u32>,
) -> Seq<u32> {
    let inter = spec_cast(grid, player_ray(player, dir.cos_a as int, dir.sin_a as int, block));
    let dcorr = spec_fp_mul(inter.distance as int, dir.cos_corr as int);
    let top = spec_wall_slice(h, dcorr).0;
    let bot = spec_wall_slice(h, dcorr).1;
    Seq::new(
        buf.len(),
        |p: int|
            {
                let x = p % w;
                let y = p / w;
                if x == i && top <= y < bot {
                    spec_wall_pixel(wall, inter.impact, inter.tx as int, top, bot, y)
                } else {
                    buf[p]
                }
            },
    )
}

/// The framebuffer after the wall pass paints columns i and onward of the
/// direction table, in order.
pub open spec fn spec_walls_from(
    grid: Seq<Seq<char>>,
    player: Player,
    dirs: Seq<ColumnDir>,
    block: int,
    wall: &Texture,
    w: int,
    h: int,
    i: int,
    buf: Seq<u32>,
) -> Seq<u32>
    decreases dirs.len() - i,
{
    if 0 <= i < dirs.len() {
        spec_walls_from(
            grid,
            player,
            dirs,
            block,
            wall,
            w,
            h,
            i + 1,
            spec_column_frame(grid, player, dirs[i], block, wall, w, h, i, buf),
        )
    } else {
        buf
    }
}

/// The raycast projection: fills the upper half with sky and the lower half
/// with floor, then walks every column, casts its ray, corrects the
/// distance, stores it in the z-buffer and paints the projected wall slice.
/// After the pass, every column of the z-buffer holds exactly the corrected
/// cast distance of its ray, and the frame equals the sky band, then the
/// floor band, then every wall slice in column order.
#[verifier::loop_isolation(false)]
pub fn render3d(
    fb: &mut Framebuffer,
    maze: &Maze,
    player: &Player,
    sky: &Texture,
    floor_tex: &Texture,
    wall: &Texture,
    dirs: &Vec<ColumnDir>,
    block_size: usize,
    z_buffer: &mut Vec<i64>,
)
    requires
        old(fb).wf(),
        1 <= old(fb).width <= SCREEN_DIM_MAX,
        2 <= old(fb).height <= SCREEN_DIM_MAX,
        maze.dims_bounded(),
        1 <= block_size <= MAZE_DIM_MAX,
        player.pos_bounded(),
        sky.wf(),
        floor_tex.wf(),
        wall.wf(),
        sky.width <= 65536,
        sky.height <= 65536,
        floor_tex.width <= 65536,
        floor_tex.height <= 65536,
        dirs.len() == old(fb).width,
        forall|i: int| 0 <= i < dirs.len() ==> dir_ok(#[trigger] dirs[i]),
        old(z_buffer).len() == old(fb).width,
    ensures
        final(fb).wf(),
        final(fb).width == old(fb).width,
        final(fb).height == old(fb).height,
        final(fb).background_color == old(fb).background_color,
        final(z_buffer).len() == old(z_buffer).len(),
        forall|i: int|
            0 <= i < final(z_buffer).len() ==> final(z_buffer)[i] == spec_column_distance(
                maze.cells(),
                *player,
                #[trigger] dirs[i],
                block_size as int,
            ),
        final(fb).buffer@ == spec_walls_from(
            maze.cells(),
            *player,
            dirs@,
            block_size as int,
            wall,
            old(fb).width as int,
            old(fb).height as int,
            0,
            spec_band(
                spec_band(
                    old(fb).buffer@,
                    old(fb).width as int,
                    sky,
                    0,
                    old(fb).height as int / 2,
                    old(fb).height as int / 2,
                ),
                old(fb).width as int,
                floor_tex,
                old(fb).height as int / 2,
                old(fb).height as int,
                old(fb).height as int / 2,
            ),
        ),
{
    let w: usize = fb.width;
    let h: usize = fb.height;
    let half: usize = h / 2;
    let ghost w_int = w as int;
    let ghost h_int = h as int;
    let ghost pre1 = *fb;
    fill_band(fb, sky, 0, half, half);
    proof {
        let target1 = spec_band(pre1.buffer@, w_int, sky, 0, half as int, half as int);
        assert forall|p: int| 0 <= p < fb.buffer@.len() implies fb.buffer@[p] == target1[p] by {
            lemma_flat_xy(w_int, h_int, p);
            let x = p % w_int;
            let y = p / w_int;
            assert(fb.buffer@[pre1.idx(x, y)] == fb.buffer@[p]);
        }
        assert(fb.buffer@ =~= target1);
    }
    let ghost pre2 = *fb;
    fill_band(fb, floor_tex, half, h, half);
    proof {
        let target2 = spec_band(pre2.buffer@, w_int, floor_tex, half as int, h_int, half as int);
        assert forall|p: int| 0 <= p < fb.buffer@.len() implies fb.buffer@[p] == target2[p] by {
            lemma_flat_xy(w_int, h_int, p);
            let x = p % w_int;
            let y = p / w_int;
            assert(fb.buffer@[pre2.idx(x, y)] == fb.buffer@[p]);
        }
        assert(fb.buffer@ =~= target2);
    }
    let ghost base = fb.buffer@;
    let mut i: usize = 0;
    while i < w
        invariant
            i <= w,
            fb.wf(),
            fb.width == old(fb).width,
            fb.height == old(fb).height,
            fb.background_color == old(fb).background_color,
            z_buffer.len() == w,
            forall|j: int|
                0 <= j < i ==> z_buffer[j] == spec_column_distance(
                    maze.cells(),
                    *player,
                    #[trigger] dirs[j],
                    block_size as int,
                ),
            spec_walls_from(
                maze.cells(),
                *player,
                dirs@,
                block_size as int,
                wall,
                w_int,
                h_int,
                i as int,
                fb.buffer@,
            ) == spec_walls_from(
                maze.cells(),
                *player,
                dirs@,
                block_size as int,
                wall,
                w_int,
                h_int,
                0,
                base,
            ),
        decreases w - i,
    {
        let ca: i64 = dirs[i].cos_a;
        let sa: i64 = dirs[i].sin_a;
        let corr: i64 = dirs[i].cos_corr;
        let inter = cast_ray(fb, maze, player, ca, sa, block_size, false);
        proof {
            assert(inter.distance * corr <= 0x10_0000_0000 * 65536) by (nonlinear_arith)
                requires
                    0 <= inter.distance <= 0x10_0000_0000,
                    0 <= corr <= 65536,
            ;
            assert(inter.distance * corr / 65536 <= inter.distance) by (nonlinear_arith)
                requires
                    0 <= inter.distance,
                    0 <= corr <= 65536,
            ;
        }
        let dist: i64 = fp_mul(inter.distance, corr);
        z_buffer.set(i, dist);
        let slice = wall_slice(h, dist);
        let ghost pre_fb = *fb;
        draw_wall_column(fb, wall, i, slice.0, slice.1, inter.impact, inter.tx);
        proof {
            let target = spec_column_frame(
                maze.cells(),
                *player,
                dirs[i as int],
                block_size as int,
                wall,
                w_int,
                h_int,
                i as int,
                pre_fb.buffer@,
            );
            assert forall|p: int| 0 <= p < fb.buffer@.len() implies fb.buffer@[p] == target[p] by {
                lemma_flat_xy(w_int, h_int, p);
                let x = p % w_int;
                let y = p / w_int;
                assert(fb.buffer@[pre_fb.idx(x, y)] == fb.buffer@[p]);
            }
            assert(fb.buffer@ =~= target);
        }
        i = i + 1;
    }
}

/// The debug view after the cells of one row, from column `col` onward,
/// are drawn as filled squares of side `block`.
pub open spec fn spec_cells2d_row_from(
    grid: Seq<Seq<char>>,
    block: int,
    w: int,
    row: int,
    col: int,
    buf: Seq<u32>,
) -> Seq<u32>
    decreases (if 0 <= row < grid.len() {
        grid[row].len() - col
    } else {
        0
    }),
{
    if 0 <= row < grid.len() && 0 <= col < grid[row].len() {
        let b1 = spec_fill_rect(
            buf,
            w,
            col * block,
            row * block,
            block,
            block,
            spec_cell_2d_color(grid[row][col]),
        );
        spec_cells2d_row_from(grid, block, w, row, col + 1, b1)
    } else {
        buf
    }
}

/// The debug view after the rows from `row` onward are drawn, each row's
/// cells in order.
pub open spec fn spec_cells2d_rows_from(
    grid: Seq<Seq<char>>,
    block: int,
    w: int,
    row: int,
    buf: Seq<u32>,
) -> Seq<u32>
    decreases grid.len() - row,
{
    if 0 <= row < grid.len() {
        spec_cells2d_rows_from(
            grid,
            block,
            w,
            row + 1,
            spec_cells2d_row_from(grid, block, w, row, 0, buf),
        )
    } else {
        buf
    }
}

/// The debug frame after the fan's rays from index j onward are plotted in
/// order, each with the caster's line-drawing pass.
pub open spec fn spec_fan_from(
    grid: Seq<Seq<char>>,
    player: Player,
    dirs: Seq<(i64, i64)>,
    block: int,
    w: int,
    h: int,
    color: u32,
    j: int,
    buf: Seq<u32>,
) -> Seq<u32>
    decreases dirs.len() - j,
{
    if 0 <= j < dirs.len() {
        spec_fan_from(
            grid,
            player,
            dirs,
            block,
            w,
            h,
            color,
            j + 1,
            spec_ray_plot(
                grid,
                player_ray(player, dirs[j].0 as int, dirs[j].1 as int, block),
                w,
                h,
                color,
                0,
                MAX_RAY_STEPS as nat,
                buf,
            ),
        )
    } else {
        buf
    }
}

/// The top-down debug view: every maze cell as a filled square, the player
/// as a single white dot, and a fan of rays drawn through the maze with the
/// caster in line-drawing mode: the frame is exactly the cell squares, then
/// the dot, then the fan's plots in order.
#[verifier::loop_isolation(false)]
pub fn render2d(
    fb: &mut Framebuffer,
    maze: &Maze,
    player: &Player,
    block_size: usize,
    dirs: &Vec<(i64, i64)>,
)
    requires
        old(fb).wf(),
        maze.dims_bounded(),
        1 <= block_size <= MAZE_DIM_MAX,
        player.pos_bounded(),
        forall|i: int|
            0 <= i < dirs.len() ==> -65536 <= (#[trigger] dirs[i]).0 <= 65536 && -65536
                <= dirs[i].1 <= 65536,
    ensures
        final(fb).wf(),
        final(fb).width == old(fb).width,
        final(fb).height == old(fb).height,
        final(fb).background_color == old(fb).background_color,
        ({
            let px = spec_cell_of_fp(player.x as int, 1);
            let py = spec_cell_of_fp(player.y as int, 1);
            old(fb).in_bounds(px, py) ==> final(fb).buffer[pix_idx(old(fb).width as int, px, py)]
                == 0xFFFFFF
        }),
        ({
            let w = old(fb).width as int;
            let px = spec_cell_of_fp(player.x as int, 1);
            let py = spec_cell_of_fp(player.y as int, 1);
            let cells = spec_cells2d_rows_from(
                maze.cells(),
                block_size as int,
                w,
                0,
                old(fb).buffer@,
            );
            let base = if old(fb).in_bounds(px, py) {
                cells.update(pix_idx(w, px, py), 0xFFFFFF)
            } else {
                cells
            };
            &&& forall|p: int|
                0 <= p < final(fb).buffer.len() ==> #[trigger] final(fb).buffer[p] == base[p]
                    || final(fb).buffer[p] == 0xFFFFFF
            &&& final(fb).buffer@ == spec_fan_from(
                maze.cells(),
                *player,
                dirs@,
                block_size as int,
                w,
                old(fb).height as int,
                0xFFFFFF,
                0,
                base,
            )
        }),
{
    let ghost w_int = fb.width as int;
    let ghost h_int = fb.height as int;
    let ghost cells_target = spec_cells2d_rows_from(
        maze.cells(),
        block_size as int,
        w_int,
        0,
        old(fb).buffer@,
    );
    let rows: usize = maze.rows();
    let mut row: usize = 0;
    while row < rows
        invariant
            row <= rows,
            rows == maze.cells().len(),
            fb.wf(),
            fb.width == old(fb).width,
            fb.height == old(fb).height,
            fb.background_color == old(fb).background_color,
            spec_cells2d_rows_from(
                maze.cells(),
                block_size as int,
                w_int,
                row as int,
                fb.buffer@,
            ) == cells_target,
        decreases rows - row,
    {
        let cols: usize = maze.row_len(row);
        proof {
            assert(spec_cells2d_rows_from(
                maze.cells(),
                block_size as int,
                w_int,
                row as int,
                fb.buffer@,
            ) == spec_cells2d_rows_from(
                maze.cells(),
                block_size as int,
                w_int,
                row as int + 1,
                spec_cells2d_row_from(
                    maze.cells(),
                    block_size as int,
                    w_int,
                    row as int,
                    0,
                    fb.buffer@,
                ),
            ));
        }
        let mut col: usize = 0;
        while col < cols
            invariant
                col <= cols,
                row < rows,
                rows == maze.cells().len(),
                cols == maze.cells()[row as int].len(),
                fb.wf(),
                fb.width == old(fb).width,
                fb.height == old(fb).height,
                fb.background_color == old(fb).background_color,
                spec_cells2d_rows_from(
                    maze.cells(),
                    block_size as int,
                    w_int,
                    row as int + 1,
                    spec_cells2d_row_from(
                        maze.cells(),
                        block_size as int,
                        w_int,
                        row as int,
                        col as int,
                        fb.buffer@,
                    ),
                ) == cells_target,
            decreases cols - col,
        {
            proof {
                assert(col * block_size + block_size <= 0x100_0000) by (nonlinear_arith)
                    requires
                        col < 4096,
                        block_size <= 4096,
                ;
                assert(row * block_size + block_size <= 0x100_0000) by (nonlinear_arith)
                    requires
                        row < 4096,
                        block_size <= 4096,
                ;
            }
            let cell = maze.cell_at(row, col);
            let ghost pre_fb = *fb;
            draw_cell(fb, col * block_size, row * block_size, block_size, cell);
            proof {
                let painted = spec_fill_rect(
                    pre_fb.buffer@,
                    w_int,
                    col as int * block_size as int,
                    row as int * block_size as int,
                    block_size as int,
                    block_size as int,
                    spec_cell_2d_color(maze.cells()[row as int][col as int]),
                );
                assert forall|p: int| 0 <= p < fb.buffer@.len() implies fb.buffer@[p]
                    == painted[p] by {
                    lemma_flat_xy(w_int, h_int, p);
                    let x = p % w_int;
                    let y = p / w_int;
                    assert(fb.buffer@[pre_fb.idx(x, y)] == fb.buffer@[p]);
                }
                assert(fb.buffer@ =~= painted);
                assert(spec_cells2d_row_from(
                    maze.cells(),
                    block_size as int,
                    w_int,
                    row as int,
                    col as int,
                    pre_fb.buffer@,
                ) == spec_cells2d_row_from(
                    maze.cells(),
                    block_size as int,
                    w_int,
                    row as int,
                    col as int + 1,
                    painted,
                ));
            }
            col = col + 1;
        }
        proof {
            assert(spec_cells2d_row_from(
                maze.cells(),
                block_size as int,
                w_int,
                row as int,
                col as int,
                fb.buffer@,
            ) == fb.buffer@);
        }
        row = row + 1;
    }
    proof {
        assert(spec_cells2d_rows_from(
            maze.cells(),
            block_size as int,
            w_int,
            rows as int,
            fb.buffer@,
        ) == fb.buffer@);
        assert(fb.buffer@ == cells_target);
    }
    fb.set_current_color(0xFFFFFF);
    let px: usize = world_px(player.x);
    let py: usize = world_px(player.y);
    fb.point(px, py);
    proof {
        if fb.in_bounds(px as int, py as int) {
            lemma_idx_in_range(fb.width as int, fb.height as int, px as int, py as int);
        }
    }
    let ghost base = if old(fb).in_bounds(px as int, py as int) {
        cells_target.update(pix_idx(w_int, px as int, py as int), 0xFFFFFF)
    } else {
        cells_target
    };
    proof {
        assert(fb.buffer@ == base);
    }
    let n: usize = dirs.len();
    let mut k: usize = 0;
    while k < n
        invariant
            k <= n,
            n == dirs.len(),
            fb.wf(),
            fb.width == old(fb).width,
            fb.height == old(fb).height,
            fb.background_color == old(fb).background_color,
            fb.current_color == 0xFFFFFF,
            old(fb).in_bounds(px as int, py as int) ==> fb.buffer[pix_idx(
                old(fb).width as int,
                px as int,
                py as int,
            )] == 0xFFFFFF,
            fb.buffer.len() == base.len(),
            forall|p: int|
                0 <= p < fb.buffer.len() ==> #[trigger] fb.buffer[p] == base[p] || fb.buffer[p]
                    == 0xFFFFFF,
            spec_fan_from(
                maze.cells(),
                *player,
                dirs@,
                block_size as int,
                w_int,
                h_int,
                0xFFFFFF,
                k as int,
                fb.buffer@,
            ) == spec_fan_from(
                maze.cells(),
                *player,
                dirs@,
                block_size as int,
                w_int,
                h_int,
                0xFFFFFF,
                0,
                base,
            ),
        decreases n - k,
    {
        let ca: i64 = dirs[k].0;
        let sa: i64 = dirs[k].1;
        let ghost pre_ray = fb.buffer@;
        cast_ray(fb, maze, player, ca, sa, block_size, true);
        proof {
            assert(spec_fan_from(
                maze.cells(),
                *player,
                dirs@,
                block_size as int,
                w_int,
                h_int,
                0xFFFFFF,
                k as int,
                pre_ray,
            ) == spec_fan_from(
                maze.cells(),
                *player,
                dirs@,
                block_size as int,
                w_int,
                h_int,
                0xFFFFFF,
                k as int + 1,
                fb.buffer@,
            ));
        }
        k = k + 1;
    }
}

/// The whole world pixel under a fixed-point coordinate, saturating
/// negative values to zero.
pub fn world_px(v: i64) -> (r: usize)
    requires
        v <= 0x4000_0000_0000,
    ensures
        r == spec_cell_of_fp(v as int, 1),
{
    if v < 0 {
        0
    } else {
        ((v as u64) / 65536) as usize
    }
}

/// Fills the rectangle of the given size at (x0, y0) with a color; pixels
/// outside the framebuffer are dropped, every other pixel is untouched.
#[verifier::loop_isolation(false)]
pub fn fill_clipped_rect(fb: &mut Framebuffer, x0: usize, y0: usize, rw: usize, rh: usize, color: u32)
    requires
        old(fb).wf(),
        x0 + rw <= usize::MAX,
        y0 + rh <= usize::MAX,
    ensures
        final(fb).wf(),
        final(fb).width == old(fb).width,
        final(fb).height == old(fb).height,
        final(fb).background_color == old(fb).background_color,
        final(fb).current_color == color,
        forall|x: int, y: int|
            old(fb).in_bounds(x, y) ==> #[trigger] final(fb).buffer[pix_idx(old(fb).width as int, x, y)] == (if x0
                <= x < x0 + rw && y0 <= y < y0 + rh {
                color
            } else {
                old(fb).buffer[pix_idx(old(fb).width as int, x, y)]
            }),
{
    fb.set_current_color(color);
    let mut x: usize = x0;
    while x < x0 + rw
        invariant
            x0 <= x <= x0 + rw,
            fb.wf(),
            fb.width == old(fb).width,
            fb.height == old(fb).height,
            fb.background_color == old(fb).background_color,
            fb.current_color == color,
            forall|x2: int, y2: int|
                old(fb).in_bounds(x2, y2) ==> #[trigger] fb.buffer[pix_idx(old(fb).width as int, x2, y2)] == (if x0
                    <= x2 < x && y0 <= y2 < y0 + rh {
                    color
                } else {
                    old(fb).buffer[pix_idx(old(fb).width as int, x2, y2)]
                }),
        decreases x0 + rw - x,
    {
        let mut y: usize = y0;
        while y < y0 + rh
            invariant
                y0 <= y <= y0 + rh,
                x0 <= x < x0 + rw,
                fb.wf(),
                fb.width == old(fb).width,
                fb.height == old(fb).height,
                fb.background_color == old(fb).background_color,
                fb.current_color == color,
                forall|x2: int, y2: int|
                    old(fb).in_bounds(x2, y2) ==> #[trigger] fb.buffer[pix_idx(old(fb).width as int, x2, y2)] == (
                    if (x0 <= x2 < x && y0 <= y2 < y0 + rh) || (x2 == x && y0 <= y2 < y) {
                        color
                    } else {
                        old(fb).buffer[pix_idx(old(fb).width as int, x2, y2)]
                    }),
            decreases y0 + rh - y,
        {
            let ghost pre = fb.buffer@;
            fb.point(x, y);
            proof {
                if fb.in_bounds(x as int, y as int) {
                    lemma_idx_in_range(fb.width as int, fb.height as int, x as int, y as int);
                    assert forall|x2: int, y2: int|
                        old(fb).in_bounds(x2, y2) && !(x2 == x && y2 == y)
                            implies #[trigger] fb.buffer[pix_idx(old(fb).width as int, x2, y2)] == pre[pix_idx(old(fb).width as int, x2, y2)] by {
                        lemma_idx_distinct(old(fb).width as int, x2, y2, x as int, y as int);
                        lemma_idx_in_range(fb.width as int, fb.height as int, x2, y2);
                    }
                }
            }
            y = y + 1;
        }
        x = x + 1;
    }
}

/// Where the player's dot lands inside the minimap: the world coordinate
/// scaled by minimap-side / (rows * block), saturating negatives to zero.
pub open spec fn spec_minimap_px(v: int, rows: int, block: int) -> int {
    if v < 0 {
        0
    } else {
        v * 200 / (rows * block * 65536)
    }
}

/// The color a maze cell paints into the minimap: the goal red, walls the
/// wall texture's corner texel, open cells black.
pub open spec fn spec_minimap_cell_color(cell: char, wall: &Texture) -> u32 {
    if cell == 'g' {
        0xFF0000
    } else {
        spec_cell_color(cell, 0, 0, wall)
    }
}

/// The minimap after the cells of one row, from column `col` onward, are
/// scaled into the inset at (mx, my).
pub open spec fn spec_minimap_row_from(
    grid: Seq<Seq<char>>,
    wall: &Texture,
    w: int,
    mx: int,
    my: int,
    block: int,
    denom: int,
    row: int,
    col: int,
    buf: Seq<u32>,
) -> Seq<u32>
    decreases (if 0 <= row < grid.len() { grid[row].len() - col } else { 0 }),
{
    if 0 <= row < grid.len() && 0 <= col < grid[row].len() {
        let b1 = spec_fill_rect(
            buf,
            w,
            mx + col * block * 200 / denom,
            my + row * block * 200 / denom,
            block * 200 / denom,
            block * 200 / denom,
            spec_minimap_cell_color(grid[row][col], wall),
        );
        spec_minimap_row_from(grid, wall, w, mx, my, block, denom, row, col + 1, b1)
    } else {
        buf
    }
}

/// The minimap after the rows from `row` onward are scaled into the inset,
/// each row's cells in order.
pub open spec fn spec_minimap_rows_from(
    grid: Seq<Seq<char>>,
    wall: &Texture,
    w: int,
    mx: int,
    my: int,
    block: int,
    denom: int,
    row: int,
    buf: Seq<u32>,
) -> Seq<u32>
    decreases grid.len() - row,
{
    if 0 <= row < grid.len() {
        spec_minimap_rows_from(
            grid,
            wall,
            w,
            mx,
            my,
            block,
            denom,
            row + 1,
            spec_minimap_row_from(grid, wall, w, mx, my, block, denom, row, 0, buf),
        )
    } else {
        buf
    }
}

/// The minimap: a dark square inset near the bottom-right corner, every
/// maze cell scaled into it (goal red, walls in the wall texture's corner
/// color, open cells black), and the player as a single red dot. When the
/// framebuffer is too small for the inset the frame is skipped. Nothing
/// left of or above the minimap origin is touched.
#[verifier::loop_isolation(false)]
pub fn render_minimap(
    fb: &mut Framebuffer,
    maze: &Maze,
    player: &Player,
    wall: &Texture,
    block_size: usize,
)
    requires
        old(fb).wf(),
        old(fb).width <= SCREEN_DIM_MAX,
        old(fb).height <= SCREEN_DIM_MAX,
        maze.dims_bounded(),
        1 <= maze.cells().len(),
        1 <= block_size <= MAZE_DIM_MAX,
        player.pos_bounded(),
        wall.wf(),
    ensures
        final(fb).wf(),
        final(fb).width == old(fb).width,
        final(fb).height == old(fb).height,
        final(fb).background_color == old(fb).background_color,
        old(fb).width < 300 || old(fb).height < 210 ==> *final(fb) == *old(fb),
        ({
            let mx = old(fb).width - 300;
            let my = old(fb).height - 210;
            old(fb).width >= 300 && old(fb).height >= 210 ==> {
                &&& forall|x: int, y: int|
                    old(fb).in_bounds(x, y) && (x < mx || y < my)
                        ==> #[trigger] final(fb).buffer[pix_idx(old(fb).width as int, x, y)] == old(fb).buffer[pix_idx(old(fb).width as int, x, y)]
                &&& final(fb).current_color == 0xFF0000
                &&& {
                    let px = mx + spec_minimap_px(
                        player.x as int,
                        maze.cells().len() as int,
                        block_size as int,
                    );
                    let py = my + spec_minimap_px(
                        player.y as int,
                        maze.cells().len() as int,
                        block_size as int,
                    );
                    old(fb).in_bounds(px, py) ==> final(fb).buffer[pix_idx(old(fb).width as int, px, py)] == 0xFF0000
                }
                &&& {
                    let w = old(fb).width as int;
                    let denom = maze.cells().len() * block_size;
                    let base = spec_fill_rect(
                        old(fb).buffer@,
                        w,
                        mx as int,
                        my as int,
                        200,
                        200,
                        0x222222,
                    );
                    let cells = spec_minimap_rows_from(
                        maze.cells(),
                        wall,
                        w,
                        mx as int,
                        my as int,
                        block_size as int,
                        denom as int,
                        0,
                        base,
                    );
                    let px = mx + spec_minimap_px(
                        player.x as int,
                        maze.cells().len() as int,
                        block_size as int,
                    );
                    let py = my + spec_minimap_px(
                        player.y as int,
                        maze.cells().len() as int,
                        block_size as int,
                    );
                    final(fb).buffer@ == (if old(fb).in_bounds(px, py) {
                        cells.update(pix_idx(w, px, py), 0xFF0000)
                    } else {
                        cells
                    })
                }
            }
        }),
{
    if fb.width < 300 || fb.height < 210 {
        return ;
    }
    let minimap_size: usize = 200;
    let mx: usize = fb.width - minimap_size - 100;
    let my: usize = fb.height - minimap_size - 10;
    let ghost w_int = fb.width as int;
    let ghost h_int = fb.height as int;
    fill_clipped_rect(fb, mx, my, minimap_size, minimap_size, 0x222222);
    proof {
        let target0 = spec_fill_rect(old(fb).buffer@, w_int, mx as int, my as int, 200, 200, 0x222222);
        assert forall|p: int| 0 <= p < fb.buffer@.len() implies fb.buffer@[p] == target0[p] by {
            lemma_flat_xy(w_int, h_int, p);
            let x = p % w_int;
            let y = p / w_int;
            assert(fb.buffer@[pix_idx(w_int, x, y)] == fb.buffer@[p]);
        }
        assert(fb.buffer@ =~= target0);
    }
    let ghost base = fb.buffer@;

    let rows: usize = maze.rows();
    proof {
        assert(rows * block_size <= 0x100_0000) by (nonlinear_arith)
            requires
                rows <= 4096,
                block_size <= 4096,
        ;
    }
    let denom: u64 = (rows as u64) * (block_size as u64);
    let ghost denom_int = denom as int;
    let ghost cells_target = spec_minimap_rows_from(
        maze.cells(),
        wall,
        w_int,
        mx as int,
        my as int,
        block_size as int,
        denom_int,
        0,
        base,
    );
    let mut row: usize = 0;
    while row < rows
        invariant
            row <= rows,
            rows == maze.cells().len(),
            1 <= rows,
            denom == rows * block_size,
            mx == old(fb).width - 300,
            my == old(fb).height - 210,
            fb.wf(),
            fb.width == old(fb).width,
            fb.height == old(fb).height,
            fb.background_color == old(fb).background_color,
            forall|x2: int, y2: int|
                old(fb).in_bounds(x2, y2) && (x2 < mx || y2 < my) ==> #[trigger] fb.buffer[pix_idx(old(fb).width as int, x2, y2)] == old(fb).buffer[pix_idx(old(fb).width as int, x2, y2)],
            spec_minimap_rows_from(
                maze.cells(),
                wall,
                w_int,
                mx as int,
                my as int,
                block_size as int,
                denom_int,
                row as int,
                fb.buffer@,
            ) == cells_target,
        decreases rows - row,
    {
        let cols: usize = maze.row_len(row);
        proof {
            assert(spec_minimap_rows_from(
                maze.cells(),
                wall,
                w_int,
                mx as int,
                my as int,
                block_size as int,
                denom_int,
                row as int,
                fb.buffer@,
            ) == spec_minimap_rows_from(
                maze.cells(),
                wall,
                w_int,
                mx as int,
                my as int,
                block_size as int,
                denom_int,
                row as int + 1,
                spec_minimap_row_from(
                    maze.cells(),
                    wall,
                    w_int,
                    mx as int,
                    my as int,
                    block_size as int,
                    denom_int,
                    row as int,
                    0,
                    fb.buffer@,
                ),
            ));
        }
        let mut col: usize = 0;
        while col < cols
            invariant
                col <= cols,
                row < rows,
                rows == maze.cells().len(),
                1 <= rows,
                cols == maze.cells()[row as int].len(),
                denom == rows * block_size,
                mx == old(fb).width - 300,
                my == old(fb).height - 210,
                fb.wf(),
                fb.width == old(fb).width,
                fb.height == old(fb).height,
                fb.background_color == old(fb).background_color,
                forall|x2: int, y2: int|
                    old(fb).in_bounds(x2, y2) && (x2 < mx || y2 < my) ==> #[trigger] fb.buffer[pix_idx(old(fb).width as int, x2, y2)] == old(fb).buffer[pix_idx(old(fb).width as int, x2, y2)],
                spec_minimap_rows_from(
                    maze.cells(),
                    wall,
                    w_int,
                    mx as int,
                    my as int,
                    block_size as int,
                    denom_int,
                    row as int + 1,
                    spec_minimap_row_from(
                        maze.cells(),
                        wall,
                        w_int,
                        mx as int,
                        my as int,
                        block_size as int,
                        denom_int,
                        row as int,
                        col as int,
                        fb.buffer@,
                    ),
                ) == cells_target,
            decreases cols - col,
        {
            proof {
                assert(col * block_size * 200 <= 0x1_0000_0000_0000) by (nonlinear_arith)
                    requires
                        col < 4096,
                        block_size <= 4096,
                ;
                assert(row * block_size * 200 <= 0x1_0000_0000_0000) by (nonlinear_arith)
                    requires
                        row < 4096,
                        block_size <= 4096,
                ;
                assert(1 <= denom) by (nonlinear_arith)
                    requires
                        denom == rows as int * block_size as int,
                        1 <= rows,
                        1 <= block_size,
                ;
            }
            let cell_x64: u64 = (col as u64) * (block_size as u64) * 200 / denom;
            let cell_y64: u64 = (row as u64) * (block_size as u64) * 200 / denom;
            let mini64: u64 = (block_size as u64) * 200 / denom;
            proof {
                assert(cell_x64 <= 0x1_0000_0000_0000 && cell_y64 <= 0x1_0000_0000_0000 && mini64
                    <= 0x1_0000_0000_0000) by (nonlinear_arith)
                    requires
                        cell_x64 == (col as int) * (block_size as int) * 200 / (denom as int),
                        cell_y64 == (row as int) * (block_size as int) * 200 / (denom as int),
                        mini64 == (block_size as int) * 200 / (denom as int),
                        col * block_size * 200 <= 0x1_0000_0000_0000,
                        row * block_size * 200 <= 0x1_0000_0000_0000,
                        block_size * 200 <= 0x1_0000_0000_0000,
                        1 <= denom,
                ;
            }
            let cell = maze.cell_at(row, col);
            let color: u32 = if cell == 'g' {
                0xFF0000
            } else {
                cell_to_texture_color(cell, 0, 0, wall)
            };
            proof {
                assert(mini64 <= 819200) by (nonlinear_arith)
                    requires
                        mini64 == (block_size as int) * 200 / (denom as int),
                        block_size <= 4096,
                        1 <= denom,
                ;
            }
            let rect_x: u64 = (mx as u64) + cell_x64;
            let rect_y: u64 = (my as u64) + cell_y64;
            let ghost pre = fb.buffer@;
            if rect_x <= 0x7FFF_FFFF && rect_y <= 0x7FFF_FFFF {
                fill_clipped_rect(
                    fb,
                    rect_x as usize,
                    rect_y as usize,
                    mini64 as usize,
                    mini64 as usize,
                    color,
                );
                proof {
                    assert forall|x2: int, y2: int|
                        old(fb).in_bounds(x2, y2) && (x2 < mx || y2 < my)
                            implies #[trigger] fb.buffer[pix_idx(old(fb).width as int, x2, y2)] == pre[pix_idx(
                        old(fb).width as int,
                        x2,
                        y2,
                    )] by {
                        assert(rect_x as int >= mx as int);
                        assert(rect_y as int >= my as int);
                        assert(x2 < rect_x as int || y2 < rect_y as int);
                    }
                }
            }
            proof {
                let painted = spec_fill_rect(
                    pre,
                    w_int,
                    mx as int + cell_x64 as int,
                    my as int + cell_y64 as int,
                    mini64 as int,
                    mini64 as int,
                    spec_minimap_cell_color(maze.cells()[row as int][col as int], wall),
                );
                if rect_x <= 0x7FFF_FFFF && rect_y <= 0x7FFF_FFFF {
                    assert forall|p: int| 0 <= p < fb.buffer@.len() implies fb.buffer@[p]
                        == painted[p] by {
                        lemma_flat_xy(w_int, h_int, p);
                        let x = p % w_int;
                        let y = p / w_int;
                        assert(fb.buffer@[pix_idx(w_int, x, y)] == fb.buffer@[p]);
                    }
                } else {
                    assert forall|p: int| 0 <= p < fb.buffer@.len() implies fb.buffer@[p]
                        == painted[p] by {
                        lemma_flat_xy(w_int, h_int, p);
                        let x = p % w_int;
                        let y = p / w_int;
                        assert(x < 0x7FFF_FFFF && y < 0x7FFF_FFFF);
                        assert(!(mx as int + cell_x64 as int <= x < mx as int + cell_x64 as int
                            + mini64 as int && my as int + cell_y64 as int <= y < my as int
                            + cell_y64 as int + mini64 as int));
                    }
                }
                assert(fb.buffer@ =~= painted);
                assert(cell_x64 == (col as int) * (block_size as int) * 200 / denom_int);
                assert(cell_y64 == (row as int) * (block_size as int) * 200 / denom_int);
                assert(mini64 == (block_size as int) * 200 / denom_int);
                assert(spec_minimap_row_from(
                    maze.cells(),
                    wall,
                    w_int,
                    mx as int,
                    my as int,
                    block_size as int,
                    denom_int,
                    row as int,
                    col as int,
                    pre,
                ) == spec_minimap_row_from(
                    maze.cells(),
                    wall,
                    w_int,
                    mx as int,
                    my as int,
                    block_size as int,
                    denom_int,
                    row as int,
                    col as int + 1,
                    painted,
                ));
            }
            col = col + 1;
        }
        proof {
            assert(spec_minimap_row_from(
                maze.cells(),
                wall,
                w_int,
                mx as int,
                my as int,
                block_size as int,
                denom_int,
                row as int,
                col as int,
                fb.buffer@,
            ) == fb.buffer@);
        }
        row = row + 1;
    }
    proof {
        assert(spec_minimap_rows_from(
            maze.cells(),
            wall,
            w_int,
            mx as int,
            my as int,
            block_size as int,
            denom_int,
            rows as int,
            fb.buffer@,
        ) == fb.buffer@);
        assert(fb.buffer@ == cells_target);
    }

    fb.set_current_color(0xFF0000);
    proof {
        assert(1 <= denom) by (nonlinear_arith)
            requires
                denom == rows as int * block_size as int,
                1 <= rows,
                1 <= block_size,
        ;
    }
    let pdenom: u64 = denom * 65536;
    let px64: u64 = if player.x < 0 {
        0
    } else {
        ((player.x as u64) * 200) / pdenom
    };
    let py64: u64 = if player.y < 0 {
        0
    } else {
        ((player.y as u64) * 200) / pdenom
    };
    proof {
        assert(px64 == spec_minimap_px(player.x as int, rows as int, block_size as int))
            by (nonlinear_arith)
            requires
                px64 == (if player.x < 0 {
                    0int
                } else {
                    (player.x as int) * 200 / (pdenom as int)
                }),
                pdenom == (rows as int) * (block_size as int) * 65536,
                1 <= pdenom,
        ;
        assert(py64 == spec_minimap_px(player.y as int, rows as int, block_size as int))
            by (nonlinear_arith)
            requires
                py64 == (if player.y < 0 {
                    0int
                } else {
                    (player.y as int) * 200 / (pdenom as int)
                }),
                pdenom == (rows as int) * (block_size as int) * 65536,
                1 <= pdenom,
        ;
    }
    let dot_x: u64 = (mx as u64) + px64;
    let dot_y: u64 = (my as u64) + py64;
    if dot_x < (fb.width as u64) && dot_y < (fb.height as u64) {
        let ghost pre = fb.buffer@;
        fb.point(dot_x as usize, dot_y as usize);
        proof {
            lemma_idx_in_range(
                fb.width as int,
                fb.height as int,
                dot_x as int,
                dot_y as int,
            );
            assert(fb.buffer@ == cells_target.update(
                pix_idx(w_int, dot_x as int, dot_y as int),
                0xFF0000,
            ));
            assert forall|x2: int, y2: int|
                old(fb).in_bounds(x2, y2) && (x2 < mx || y2 < my)
                    implies #[trigger] fb.buffer[pix_idx(old(fb).width as int, x2, y2)] == pre[pix_idx(
                old(fb).width as int,
                x2,
                y2,
            )] by {
                lemma_idx_distinct(old(fb).width as int, x2, y2, dot_x as int, dot_y as int);
                lemma_idx_in_range(fb.width as int, fb.height as int, x2, y2);
            }
        }
    }
}

} // verus!
