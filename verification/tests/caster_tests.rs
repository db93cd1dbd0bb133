use maze_raycaster::caster::{cast_ray, MISS_DISTANCE_FP};
use maze_raycaster::framebuffer::Framebuffer;
use maze_raycaster::maze::Maze;
use maze_raycaster::player::Player;

const ONE: i64 = 65536;

fn maze_of(text: &str) -> Maze {
    Maze::from_bytes(&text.as_bytes().to_vec())
}

fn player_at(x: i64, y: i64) -> Player {
    Player { x, y, a: 0, fov: 68629 }
}

#[test]
fn ray_east_hits_wall_at_exact_distance() {
    let m = maze_of("+++\n+ +\n+++");
    let mut fb = Framebuffer::new(8, 8);
    let p = player_at(150 * ONE, 150 * ONE);
    let hit = cast_ray(&mut fb, &m, &p, ONE, 0, 100, false);
    // The wall column starts at x = 200, fifty world units east.
    assert_eq!(hit.distance, 50 * ONE);
    assert_eq!(hit.impact, '+');
    // A column crossing samples the texture from the vertical coordinate:
    // y = 150, 150 mod 100 = 50, scaled to 50 * 128 / 100 = 64.
    assert_eq!(hit.tx, 64);
}

#[test]
fn ray_south_hits_wall_with_horizontal_tx() {
    let m = maze_of("+++\n+ +\n+++");
    let mut fb = Framebuffer::new(8, 8);
    let p = player_at(150 * ONE, 150 * ONE);
    let hit = cast_ray(&mut fb, &m, &p, 0, ONE, 100, false);
    assert_eq!(hit.distance, 50 * ONE);
    assert_eq!(hit.impact, '+');
    // A row crossing samples from the horizontal coordinate: x = 150.
    assert_eq!(hit.tx, 64);
}

#[test]
fn ray_leaving_the_grid_reports_a_miss() {
    let m = maze_of(" ");
    let mut fb = Framebuffer::new(8, 8);
    let p = player_at(50 * ONE, 50 * ONE);
    let hit = cast_ray(&mut fb, &m, &p, ONE, 0, 100, false);
    assert_eq!(hit.distance, MISS_DISTANCE_FP);
    assert_eq!(hit.impact, ' ');
    assert_eq!(hit.tx, 0);
}

#[test]
fn cast_without_draw_leaves_framebuffer_untouched() {
    let m = maze_of("+++\n+ +\n+++");
    let mut fb = Framebuffer::new(250, 200);
    fb.set_current_color(0x00FF00);
    let before = fb.buffer.clone();
    let p = player_at(150 * ONE, 150 * ONE);
    cast_ray(&mut fb, &m, &p, ONE, 0, 100, false);
    assert_eq!(fb.buffer, before);
}

#[test]
fn cast_with_draw_plots_traversed_points() {
    let m = maze_of("+++\n+ +\n+++");
    let mut fb = Framebuffer::new(250, 200);
    fb.set_current_color(0x00FF00);
    let p = player_at(150 * ONE, 150 * ONE);
    cast_ray(&mut fb, &m, &p, ONE, 0, 100, true);
    // The ray runs east along y = 150 from x = 150 to the wall at x = 200.
    assert_eq!(fb.get_pixel(160, 150), 0x00FF00);
    assert_eq!(fb.get_pixel(199, 150), 0x00FF00);
    // Pixels off the ray stay black.
    assert_eq!(fb.get_pixel(160, 140), 0);
}
