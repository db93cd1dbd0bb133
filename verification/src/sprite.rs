//! Billboard sprite compositing against the per-column depth buffer. The
//! host supplies, for each enemy, the angle from the player to it and the
//! distance (both fixed point); the compositor culls sprites behind the
//! half-plane or too close, projects the billboard square onto the screen,
//! tests its left edge against the z-buffer, and paints it with a
//! transparency key, claiming the covered columns in the z-buffer.

use vstd::prelude::*;
use crate::framebuffer::{Framebuffer, pix_idx, lemma_flat_xy};
use crate::texture::Texture;
use crate::player::Player;
use crate::maze::spec_cell_of_fp;
use crate::render::{world_px, lemma_idx_distinct, lemma_idx_in_range, SCREEN_DIM_MAX};
use crate::fixed::fp_mul;

verus! {

/// Sprite pixels of this color are transparent and leave the framebuffer
/// untouched.
pub const SPRITE_KEY_COLOR: u32 = 0x3a4041;

/// Sprites closer than this (10 world units, fixed point) are skipped.
pub const SPRITE_MIN_DISTANCE_FP: i64 = 655360;

/// How a billboard lands on the screen: its square size in fixed point and
/// whole pixels, and the clamped bounds of its rectangle.
pub ghost struct SpriteLayout {
    pub size_fp: int,
    pub size_px: int,
    pub sx: int,
    pub sy: int,
    pub ex: int,
    pub ey: int,
}

/// Where a billboard of angle `theta` and distance `d` lands on a w x h
/// screen for a player heading `a` with field of view `fov`: the square's
/// side is `(h / d) * 100` world-projected, its horizontal origin is offset
/// from the screen center by `(theta - a) * h / fov`, and the rectangle is
/// clamped to the screen (negative origins saturate to zero).
pub open spec fn spec_sprite_layout(w: int, h: int, fov: int, a: int, theta: int, d: int) -> SpriteLayout {
    let size_fp = (h * 65536) * 65536 / d * 100;
    let k = (h * 65536) * 65536 / fov;
    let diff = theta - a;
    let offset = if diff >= 0 {
        diff * k / 65536
    } else {
        -((-diff) * k / 65536)
    };
    let sxf = offset + (w / 2) * 65536 - size_fp / 2;
    let syf = (h / 2) * 65536 - size_fp / 2;
    let ex0 = spec_cell_of_fp(sxf + size_fp, 1);
    let ey0 = spec_cell_of_fp(syf + size_fp, 1);
    SpriteLayout {
        size_fp,
        size_px: size_fp / 65536,
        sx: spec_cell_of_fp(sxf, 1),
        sy: spec_cell_of_fp(syf, 1),
        ex: if ex0 < w {
            ex0
        } else {
            w
        },
        ey: if ey0 < h {
            ey0
        } else {
            h
        },
    }
}

/// The color a sprite pixel leaves at (x, y) inside its rectangle: the
/// billboard texture sample, unless it is the transparency key, in which
/// case the pixel keeps its old color.
pub open spec fn spec_sprite_pixel(
    tex: &Texture,
    old_color: u32,
    sx: int,
    sy: int,
    size_px: int,
    x: int,
    y: int,
) -> u32 {
    let c = tex.spec_sample((x - sx) * 128 / size_px, (y - sy) * 128 / size_px);
    if c == SPRITE_KEY_COLOR {
        old_color
    } else {
        c
    }
}

/// The sprite is dropped without touching anything: behind the half-plane
/// (negative angle), too close, degenerate on screen, off screen to the
/// left, or occluded by a wall at its left edge.
pub open spec fn spec_sprite_skipped(
    w: int,
    h: int,
    fov: int,
    a: int,
    theta: int,
    d: int,
    z_at_left_edge: int,
) -> bool {
    let l = spec_sprite_layout(w, h, fov, a, theta, d);
    ||| theta < 0
    ||| d < SPRITE_MIN_DISTANCE_FP
    ||| l.ex == 0
    ||| l.size_px == 0
    ||| l.sx >= w
    ||| d >= z_at_left_edge
}

/// Projects and paints one billboard against the z-buffer. A sprite behind
/// the player's half-plane, closer than the minimum distance, degenerate or
/// occluded at its left edge (single-column depth test) changes nothing;
/// otherwise its rectangle is painted through the transparency key and
/// every covered column's depth becomes the sprite's distance.
#[verifier::loop_isolation(false)]
pub fn render_enemy(
    fb: &mut Framebuffer,
    tex: &Texture,
    player: &Player,
    theta: i64,
    d: i64,
    z_buffer: &mut Vec<i64>,
)
    requires
        old(fb).wf(),
        1 <= old(fb).width <= SCREEN_DIM_MAX,
        2 <= old(fb).height <= SCREEN_DIM_MAX,
        tex.wf(),
        old(z_buffer).len() == old(fb).width,
        -0x1000_0000 <= theta <= 0x1000_0000,
        -0x1000_0000 <= player.a <= 0x1000_0000,
        16384 <= player.fov <= 0x1_0000_0000,
        0 <= d <= 0x10_0000_0000,
    ensures
        final(fb).wf(),
        final(fb).width == old(fb).width,
        final(fb).height == old(fb).height,
        final(fb).background_color == old(fb).background_color,
        final(z_buffer).len() == old(z_buffer).len(),
        ({
            let w = old(fb).width as int;
            let h = old(fb).height as int;
            let l = spec_sprite_layout(w, h, player.fov as int, player.a as int, theta as int, d as int);
            let zedge = if 0 <= l.sx < w {
                old(z_buffer)[l.sx] as int
            } else {
                0
            };
            if spec_sprite_skipped(w, h, player.fov as int, player.a as int, theta as int, d as int, zedge) {
                final(fb).buffer@ == old(fb).buffer@ && final(z_buffer)@ == old(z_buffer)@
                    && final(fb).current_color == old(fb).current_color
            } else {
                &&& forall|j: int|
                    0 <= j < w ==> final(z_buffer)[j] == (if l.sx <= j < l.ex - 1 && l.sy + 1
                        < l.ey {
                        d as int
                    } else {
                        old(z_buffer)[j] as int
                    })
                &&& forall|x: int, y: int|
                    old(fb).in_bounds(x, y) ==> #[trigger] final(fb).buffer[pix_idx(w, x, y)] == (
                    if l.sx <= x < l.ex - 1 && l.sy <= y < l.ey - 1 {
                        spec_sprite_pixel(
                            tex,
                            old(fb).buffer[pix_idx(w, x, y)],
                            l.sx,
                            l.sy,
                            l.size_px,
                            x,
                            y,
                        )
                    } else {
                        old(fb).buffer[pix_idx(w, x, y)]
                    })
            }
        }),
{
    let w: usize = fb.width;
    let h: usize = fb.height;
    let ghost lay = spec_sprite_layout(
        w as int,
        h as int,
        player.fov as int,
        player.a as int,
        theta as int,
        d as int,
    );
    if theta < 0 {
        return ;
    }
    if d < SPRITE_MIN_DISTANCE_FP {
        return ;
    }

    let h_fp: u64 = (h as u64) * 65536;
    let t: u64 = h_fp * 65536 / (d as u64);
    assert(t <= 0x400_0000) by (nonlinear_arith)
        requires
            t == h_fp * 65536 / (d as int),
            h_fp <= 0x2000_0000,
            655360 <= d,
    ;
    let size_fp: i64 = (t * 100) as i64;
    let size_px: usize = ((size_fp as u64) / 65536) as usize;
    assert(size_fp == lay.size_fp);
    assert(size_px == lay.size_px);

    assert(h_fp * 65536 / (player.fov as int) <= 0x8000_0000) by (nonlinear_arith)
        requires
            h_fp <= 0x2000_0000,
            16384 <= player.fov,
    ;
    let k: i64 = (h_fp * 65536 / (player.fov as u64)) as i64;
    let diff: i64 = theta - player.a;
    let offset: i64 = if diff >= 0 {
        proof {
            assert(diff * k <= 0x2000_0000 * 0x8000_0000) by (nonlinear_arith)
                requires
                    0 <= diff <= 0x2000_0000,
                    0 <= k <= 0x8000_0000,
            ;
            assert(diff * k / 65536 <= diff * k) by (nonlinear_arith)
                requires 0 <= diff * k,
            ;
        }
        fp_mul(diff, k)
    } else {
        proof {
            assert((-diff) * k <= 0x2000_0000 * 0x8000_0000) by (nonlinear_arith)
                requires
                    0 <= -diff <= 0x2000_0000,
                    0 <= k <= 0x8000_0000,
            ;
            assert((-diff) * k / 65536 <= (-diff) * k) by (nonlinear_arith)
                requires 0 <= (-diff) * k,
            ;
        }
        -fp_mul(-diff, k)
    };
    let size_half: i64 = ((size_fp as u64) / 2) as i64;
    let sxf: i64 = offset + ((w / 2) as i64) * 65536 - size_half;
    let syf: i64 = ((h / 2) as i64) * 65536 - size_half;
    assert(size_half == size_fp / 2);

    let ex0: usize = world_px(sxf + size_fp);
    let ey0: usize = world_px(syf + size_fp);
    let end_x: usize = if ex0 < w {
        ex0
    } else {
        w
    };
    let end_y: usize = if ey0 < h {
        ey0
    } else {
        h
    };
    let sx: usize = world_px(sxf);
    let sy: usize = world_px(syf);
    assert(sx == lay.sx && sy == lay.sy && end_x == lay.ex && end_y == lay.ey);

    if end_x == 0 {
        return ;
    }
    if size_px == 0 {
        return ;
    }
    if !(sx < w && d < z_buffer[sx]) {
        return ;
    }

    if sx + 1 >= end_x || sy + 1 >= end_y {
        // The clamped rectangle is empty: the paint loops of a non-skipped
        // sprite cover no pixel and no column.
        return ;
    }

    let ghost old_buf = fb.buffer@;
    let ghost old_z = z_buffer@;
    let mut x: usize = sx;
    while x + 1 < end_x
        invariant
            sx <= x <= end_x - 1,
            fb.wf(),
            fb.width == old(fb).width,
            fb.height == old(fb).height,
            fb.background_color == old(fb).background_color,
            z_buffer.len() == w,
            old_buf == old(fb).buffer@,
            old_z == old(z_buffer)@,
            forall|j: int|
                0 <= j < w ==> z_buffer[j] == (if sx <= j < x {
                    d as int
                } else {
                    old_z[j] as int
                }),
            forall|x2: int, y2: int|
                old(fb).in_bounds(x2, y2) ==> #[trigger] fb.buffer[pix_idx(w as int, x2, y2)] == (
                if sx <= x2 < x && sy <= y2 < end_y - 1 {
                    spec_sprite_pixel(
                        tex,
                        old_buf[pix_idx(w as int, x2, y2)],
                        sx as int,
                        sy as int,
                        size_px as int,
                        x2,
                        y2,
                    )
                } else {
                    old_buf[pix_idx(w as int, x2, y2)]
                }),
        decreases end_x - x,
    {
        let mut y: usize = sy;
        while y + 1 < end_y
            invariant
                sy <= y <= end_y - 1,
                sx <= x < end_x - 1,
                fb.wf(),
                fb.width == old(fb).width,
                fb.height == old(fb).height,
                fb.background_color == old(fb).background_color,
                z_buffer.len() == w,
                old_buf == old(fb).buffer@,
                old_z == old(z_buffer)@,
                forall|j: int|
                    0 <= j < w ==> z_buffer[j] == (if sx <= j < x || (j == x && y > sy) {
                        d as int
                    } else {
                        old_z[j] as int
                    }),
                forall|x2: int, y2: int|
                    old(fb).in_bounds(x2, y2) ==> #[trigger] fb.buffer[pix_idx(w as int, x2, y2)]
                        == (if (sx <= x2 < x && sy <= y2 < end_y - 1) || (x2 == x && sy <= y2 < y) {
                        spec_sprite_pixel(
                            tex,
                            old_buf[pix_idx(w as int, x2, y2)],
                            sx as int,
                            sy as int,
                            size_px as int,
                            x2,
                            y2,
                        )
                    } else {
                        old_buf[pix_idx(w as int, x2, y2)]
                    }),
            decreases end_y - y,
        {
            let txv: usize = (x - sx) * 128 / size_px;
            let tyv: usize = (y - sy) * 128 / size_px;
            let color = tex.get_pixel_color(txv as u32, tyv as u32);
            let ghost pre = fb.buffer@;
            if color != SPRITE_KEY_COLOR {
                fb.set_current_color(color);
                fb.point(x, y);
                proof {
                    if fb.in_bounds(x as int, y as int) {
                        lemma_idx_in_range(fb.width as int, fb.height as int, x as int, y as int);
                        assert forall|x2: int, y2: int|
                            old(fb).in_bounds(x2, y2) && !(x2 == x && y2 == y)
                                implies #[trigger] fb.buffer[pix_idx(w as int, x2, y2)] == pre[pix_idx(
                            w as int,
                            x2,
                            y2,
                        )] by {
                            lemma_idx_distinct(w as int, x2, y2, x as int, y as int);
                            lemma_idx_in_range(fb.width as int, fb.height as int, x2, y2);
                        }
                    }
                }
            }
            z_buffer.set(x, d);
            y = y + 1;
        }
        x = x + 1;
    }
}

/// One enemy as the host hands it to the compositor: the angle from the
/// player to it and the distance, both fixed point.
pub struct SpriteView {
    pub theta: i64,
    pub d: i64,
}

/// The z-buffer after one sprite's pass: unchanged when the sprite is
/// skipped, else the sprite's distance on every covered column.
pub open spec fn spec_enemy_pass_z(
    w: int,
    h: int,
    fov: i64,
    a: i64,
    theta: i64,
    d: i64,
    zb: Seq<i64>,
) -> Seq<i64> {
    let l = spec_sprite_layout(w, h, fov as int, a as int, theta as int, d as int);
    let zedge = if 0 <= l.sx < w {
        zb[l.sx] as int
    } else {
        0
    };
    if spec_sprite_skipped(w, h, fov as int, a as int, theta as int, d as int, zedge) {
        zb
    } else {
        Seq::new(
            zb.len(),
            |j: int|
                if l.sx <= j < l.ex - 1 && l.sy + 1 < l.ey {
                    d
                } else {
                    zb[j]
                },
        )
    }
}

/// The framebuffer after one sprite's pass: unchanged when the sprite is
/// skipped, else its rectangle painted through the transparency key.
pub open spec fn spec_enemy_pass_fb(
    w: int,
    h: int,
    fov: i64,
    a: i64,
    theta: i64,
    d: i64,
    tex: &Texture,
    buf: Seq<u32>,
    zb: Seq<i64>,
) -> Seq<u32> {
    let l = spec_sprite_layout(w, h, fov as int, a as int, theta as int, d as int);
    let zedge = if 0 <= l.sx < w {
        zb[l.sx] as int
    } else {
        0
    };
    if spec_sprite_skipped(w, h, fov as int, a as int, theta as int, d as int, zedge) {
        buf
    } else {
        Seq::new(
            buf.len(),
            |i: int|
                {
                    let x = i % w;
                    let y = i / w;
                    if l.sx <= x < l.ex - 1 && l.sy <= y < l.ey - 1 {
                        spec_sprite_pixel(tex, buf[i], l.sx, l.sy, l.size_px, x, y)
                    } else {
                        buf[i]
                    }
                },
        )
    }
}

/// Frame and depth buffer after rendering a list of sprites in order: the
/// in-order fold of the one-sprite pass.
pub open spec fn spec_enemies_pass(
    w: int,
    h: int,
    fov: i64,
    a: i64,
    tex: &Texture,
    sprites: Seq<SpriteView>,
    buf: Seq<u32>,
    zb: Seq<i64>,
) -> (Seq<u32>, Seq<i64>)
    decreases sprites.len(),
{
    if sprites.len() == 0 {
        (buf, zb)
    } else {
        let s = sprites[0];
        let b1 = spec_enemy_pass_fb(w, h, fov, a, s.theta, s.d, tex, buf, zb);
        let z1 = spec_enemy_pass_z(w, h, fov, a, s.theta, s.d, zb);
        spec_enemies_pass(w, h, fov, a, tex, sprites.skip(1), b1, z1)
    }
}

/// Renders every enemy in order, each against the current z-buffer, so a
/// nearer sprite drawn earlier occludes later ones through the depth test;
/// the result is exactly the in-order fold of the one-sprite pass.
#[verifier::loop_isolation(false)]
pub fn render_enemies(
    fb: &mut Framebuffer,
    tex: &Texture,
    player: &Player,
    sprites: &Vec<SpriteView>,
    z_buffer: &mut Vec<i64>,
)
    requires
        old(fb).wf(),
        1 <= old(fb).width <= SCREEN_DIM_MAX,
        2 <= old(fb).height <= SCREEN_DIM_MAX,
        tex.wf(),
        old(z_buffer).len() == old(fb).width,
        -0x1000_0000 <= player.a <= 0x1000_0000,
        16384 <= player.fov <= 0x1_0000_0000,
        forall|i: int|
            0 <= i < sprites.len() ==> -0x1000_0000 <= (#[trigger] sprites[i]).theta
                <= 0x1000_0000 && 0 <= sprites[i].d <= 0x10_0000_0000,
    ensures
        final(fb).wf(),
        final(fb).width == old(fb).width,
        final(fb).height == old(fb).height,
        final(fb).background_color == old(fb).background_color,
        final(z_buffer).len() == old(z_buffer).len(),
        ({
            let r = spec_enemies_pass(
                old(fb).width as int,
                old(fb).height as int,
                player.fov,
                player.a,
                tex,
                sprites@,
                old(fb).buffer@,
                old(z_buffer)@,
            );
            final(fb).buffer@ == r.0 && final(z_buffer)@ == r.1
        }),
{
    let ghost w_int = old(fb).width as int;
    let ghost h_int = old(fb).height as int;
    let ghost old_buf = old(fb).buffer@;
    let ghost old_z = old(z_buffer)@;
    let n: usize = sprites.len();
    let mut i: usize = 0;
    proof {
        assert(sprites@.skip(0) =~= sprites@);
    }
    while i < n
        invariant
            i <= n,
            n == sprites.len(),
            fb.wf(),
            fb.width == old(fb).width,
            fb.height == old(fb).height,
            fb.background_color == old(fb).background_color,
            z_buffer.len() == old(z_buffer).len(),
            spec_enemies_pass(
                w_int,
                h_int,
                player.fov,
                player.a,
                tex,
                sprites@.skip(i as int),
                fb.buffer@,
                z_buffer@,
            ) == spec_enemies_pass(
                w_int,
                h_int,
                player.fov,
                player.a,
                tex,
                sprites@,
                old_buf,
                old_z,
            ),
        decreases n - i,
    {
        let theta: i64 = sprites[i].theta;
        let d: i64 = sprites[i].d;
        let ghost pre_buf = fb.buffer@;
        let ghost pre_z = z_buffer@;
        render_enemy(fb, tex, player, theta, d, z_buffer);
        proof {
            let l = spec_sprite_layout(
                w_int,
                h_int,
                player.fov as int,
                player.a as int,
                theta as int,
                d as int,
            );
            let zedge = if 0 <= l.sx < w_int {
                pre_z[l.sx] as int
            } else {
                0
            };
            if spec_sprite_skipped(
                w_int,
                h_int,
                player.fov as int,
                player.a as int,
                theta as int,
                d as int,
                zedge,
            ) {
                assert(fb.buffer@ =~= spec_enemy_pass_fb(
                    w_int,
                    h_int,
                    player.fov,
                    player.a,
                    theta,
                    d,
                    tex,
                    pre_buf,
                    pre_z,
                ));
                assert(z_buffer@ =~= spec_enemy_pass_z(
                    w_int,
                    h_int,
                    player.fov,
                    player.a,
                    theta,
                    d,
                    pre_z,
                ));
            } else {
                let ztarget = spec_enemy_pass_z(
                    w_int,
                    h_int,
                    player.fov,
                    player.a,
                    theta,
                    d,
                    pre_z,
                );
                assert forall|j: int| 0 <= j < z_buffer@.len() implies z_buffer@[j] == ztarget[j]
                    by {}
                assert(z_buffer@ =~= ztarget);
                let btarget = spec_enemy_pass_fb(
                    w_int,
                    h_int,
                    player.fov,
                    player.a,
                    theta,
                    d,
                    tex,
                    pre_buf,
                    pre_z,
                );
                assert forall|p: int| 0 <= p < fb.buffer@.len() implies fb.buffer@[p] == btarget[p]
                    by {
                    lemma_flat_xy(w_int, h_int, p);
                    let x = p % w_int;
                    let y = p / w_int;
                    assert(fb.buffer@[pix_idx(w_int, x, y)] == fb.buffer@[p]);
                }
                assert(fb.buffer@ =~= btarget);
            }
            assert(sprites@.skip(i as int)[0] == sprites@[i as int]);
            assert(sprites@.skip(i as int).skip(1) =~= sprites@.skip(i as int + 1));
        }
        i = i + 1;
    }
    proof {
        assert(sprites@.skip(n as int).len() == 0);
    }
}

} // verus!
