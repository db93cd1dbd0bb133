use maze_raycaster::framebuffer::Framebuffer;
use maze_raycaster::player::Player;
use maze_raycaster::sprite::{render_enemies, render_enemy, SpriteView, SPRITE_KEY_COLOR};
use maze_raycaster::texture::Texture;

const ONE: i64 = 65536;
const FAR: i64 = 0x10_0000_0000;

fn solid(color: u32) -> Texture {
    Texture::from_pixels(1, 1, vec![color])
}

fn player() -> Player {
    Player { x: 0, y: 0, a: 0, fov: 68629 }
}

#[test]
fn sprite_in_view_paints_and_claims_columns() {
    let mut fb = Framebuffer::new(100, 100);
    let tex = solid(0x99AA00);
    let mut z = vec![FAR; 100];
    // 0.1 radians right of center, 100 units away: a 100-pixel square
    // starting at column 9.
    render_enemy(&mut fb, &tex, &player(), 6554, 100 * ONE, &mut z);
    assert_eq!(fb.get_pixel(50, 50), 0x99AA00);
    assert_eq!(fb.get_pixel(9, 0), 0x99AA00);
    assert_eq!(fb.get_pixel(5, 50), 0);
    for x in 9..99 {
        assert_eq!(z[x], 100 * ONE);
    }
    assert_eq!(z[8], FAR);
    assert_eq!(z[99], FAR);
}

#[test]
fn sprite_culling_by_angle() {
    let mut fb = Framebuffer::new(100, 100);
    let tex = solid(0x99AA00);
    let mut z = vec![FAR; 100];
    let before = fb.buffer.clone();
    // A negative angle (the back-left half-plane) is culled outright.
    render_enemy(&mut fb, &tex, &player(), -6554, 100 * ONE, &mut z);
    assert_eq!(fb.buffer, before);
    assert!(z.iter().all(|&v| v == FAR));
    // The same sprite at a non-negative angle is rendered.
    render_enemy(&mut fb, &tex, &player(), 6554, 100 * ONE, &mut z);
    assert_ne!(fb.buffer, before);
}

#[test]
fn sprite_too_close_is_skipped() {
    let mut fb = Framebuffer::new(100, 100);
    let tex = solid(0x99AA00);
    let mut z = vec![FAR; 100];
    let before = fb.buffer.clone();
    render_enemy(&mut fb, &tex, &player(), 6554, 5 * ONE, &mut z);
    assert_eq!(fb.buffer, before);
    assert!(z.iter().all(|&v| v == FAR));
}

#[test]
fn sprite_occluded_at_left_edge_paints_nothing() {
    let mut fb = Framebuffer::new(100, 100);
    let tex = solid(0x99AA00);
    let mut z = vec![FAR; 100];
    // A wall nearer than the sprite at its left-edge column (column 9)
    // hides the whole sprite.
    z[9] = 100 * ONE - 1;
    let zbefore = z.clone();
    let before = fb.buffer.clone();
    render_enemy(&mut fb, &tex, &player(), 6554, 100 * ONE, &mut z);
    assert_eq!(fb.buffer, before);
    assert_eq!(z, zbefore);
}

#[test]
fn transparent_key_pixels_leave_framebuffer_but_claim_depth() {
    let mut fb = Framebuffer::new(100, 100);
    let tex = solid(SPRITE_KEY_COLOR);
    let mut z = vec![FAR; 100];
    let before = fb.buffer.clone();
    render_enemy(&mut fb, &tex, &player(), 6554, 100 * ONE, &mut z);
    assert_eq!(fb.buffer, before);
    for x in 9..99 {
        assert_eq!(z[x], 100 * ONE);
    }
}

#[test]
fn render_enemies_walks_the_list_in_order() {
    let mut fb = Framebuffer::new(100, 100);
    let tex = solid(0x99AA00);
    let mut z = vec![FAR; 100];
    let sprites = vec![
        SpriteView { theta: -6554, d: 100 * ONE },
        SpriteView { theta: 6554, d: 100 * ONE },
    ];
    render_enemies(&mut fb, &tex, &player(), &sprites, &mut z);
    assert_eq!(fb.get_pixel(50, 50), 0x99AA00);
    assert_eq!(z[50], 100 * ONE);
}
