use maze_raycaster::fixed::{fp_mul, FP_ONE};
use maze_raycaster::framebuffer::Framebuffer;
use maze_raycaster::maze::Maze;
use maze_raycaster::player::Player;
use maze_raycaster::render::{
    cell_to_texture_color, draw_cell, fill_band, render2d, render3d, render_minimap, wall_slice,
    ColumnDir,
};
use maze_raycaster::texture::Texture;

const ONE: i64 = 65536;

fn maze_of(text: &str) -> Maze {
    Maze::from_bytes(&text.as_bytes().to_vec())
}

fn solid(color: u32) -> Texture {
    Texture::from_pixels(1, 1, vec![color])
}

fn player_at(x: i64, y: i64) -> Player {
    Player { x, y, a: 0, fov: 68629 }
}

#[test]
fn fisheye_center_column_keeps_raw_distance() {
    // At the view heading the correction factor is cos(0) = 1.
    assert_eq!(fp_mul(123456, FP_ONE), 123456);
    assert_eq!(fp_mul(500 * ONE, FP_ONE), 500 * ONE);
}

#[test]
fn wall_slice_matches_projection_formula() {
    // A 900-pixel-tall framebuffer and a wall 500 units ahead: the column
    // is (900 / 500) * 70 = 126 pixels tall, centered on the horizon.
    let (top, bot) = wall_slice(900, 500 * ONE);
    assert_eq!(bot - top as u64, 126);
    assert_eq!(top, 450 - 63);
}

#[test]
fn wall_slice_clamps_top_for_near_walls() {
    let (top, bot) = wall_slice(100, ONE);
    assert_eq!(top, 0);
    assert!(bot > 100);
}

#[test]
fn cell_colors_sample_walls_and_black_floor() {
    let wall = solid(0x888888);
    assert_eq!(cell_to_texture_color('+', 0, 0, &wall), 0x888888);
    assert_eq!(cell_to_texture_color('-', 5, 9, &wall), 0x888888);
    assert_eq!(cell_to_texture_color('|', 0, 0, &wall), 0x888888);
    assert_eq!(cell_to_texture_color('g', 0, 0, &wall), 0x888888);
    assert_eq!(cell_to_texture_color(' ', 0, 0, &wall), 0);
}

#[test]
fn texture_sampling_clamps_to_edge() {
    let tex = Texture::from_pixels(2, 2, vec![1, 2, 3, 4]);
    assert_eq!(tex.get_pixel_color(0, 0), 1);
    assert_eq!(tex.get_pixel_color(1, 1), 4);
    assert_eq!(tex.get_pixel_color(9, 0), 2);
    assert_eq!(tex.get_pixel_color(0, 9), 3);
}

#[test]
fn fill_band_samples_scaled_texture() {
    let mut fb = Framebuffer::new(4, 4);
    let tex = Texture::from_pixels(2, 2, vec![1, 2, 3, 4]);
    fill_band(&mut fb, &tex, 0, 2, 2);
    assert_eq!(fb.get_pixel(0, 0), 1);
    assert_eq!(fb.get_pixel(3, 0), 2);
    assert_eq!(fb.get_pixel(0, 1), 3);
    assert_eq!(fb.get_pixel(3, 1), 4);
    // Rows below the band are untouched.
    assert_eq!(fb.get_pixel(0, 2), 0);
}

#[test]
fn draw_cell_paints_goal_red_and_walls_black() {
    let mut fb = Framebuffer::new(8, 8);
    fb.set_current_color(0x12345678);
    draw_cell(&mut fb, 0, 0, 3, 'g');
    assert_eq!(fb.get_pixel(0, 0), 0xFF0000);
    assert_eq!(fb.get_pixel(2, 2), 0xFF0000);
    assert_eq!(fb.get_pixel(3, 3), 0);
    draw_cell(&mut fb, 4, 4, 2, '+');
    assert_eq!(fb.get_pixel(4, 4), 0);
}

#[test]
fn render3d_fills_z_buffer_with_corrected_cast_distances() {
    let m = maze_of("++++\n+  +\n++++");
    let mut fb = Framebuffer::new(4, 4);
    let p = player_at(150 * ONE, 150 * ONE);
    let sky = solid(0x00AAFF);
    let floor = solid(0x224422);
    let wall = solid(0x888888);
    let dirs = vec![
        ColumnDir { cos_a: ONE, sin_a: 0, cos_corr: ONE },
        ColumnDir { cos_a: ONE, sin_a: 0, cos_corr: ONE },
        ColumnDir { cos_a: ONE, sin_a: 0, cos_corr: ONE },
        ColumnDir { cos_a: ONE, sin_a: 0, cos_corr: ONE },
    ];
    let mut z = vec![0i64; 4];
    render3d(&mut fb, &m, &p, &sky, &floor, &wall, &dirs, 100, &mut z);
    // Each ray runs east from x = 150 to the wall at x = 300.
    for i in 0..4 {
        assert_eq!(z[i], 150 * ONE);
    }
    // The wall slice at that distance is empty for a 4-pixel screen, so the
    // sky and floor bands show through.
    assert_eq!(fb.get_pixel(0, 0), 0x00AAFF);
    assert_eq!(fb.get_pixel(0, 3), 0x224422);
}

#[test]
fn render3d_paints_wall_band_over_background() {
    let m = maze_of("++++\n+  +\n++++");
    let mut fb = Framebuffer::new(4, 40);
    let p = player_at(150 * ONE, 150 * ONE);
    let sky = solid(0x00AAFF);
    let floor = solid(0x224422);
    let wall = solid(0x888888);
    let dirs: Vec<ColumnDir> = (0..4)
        .map(|_| ColumnDir { cos_a: ONE, sin_a: 0, cos_corr: ONE })
        .collect();
    let mut z = vec![0i64; 4];
    render3d(&mut fb, &m, &p, &sky, &floor, &wall, &dirs, 100, &mut z);
    // Slice height (40 / 150) * 70 = 18 rows centered on row 20.
    assert_eq!(fb.get_pixel(1, 20), 0x888888);
    assert_eq!(fb.get_pixel(1, 11), 0x888888);
    assert_eq!(fb.get_pixel(1, 5), 0x00AAFF);
    assert_eq!(fb.get_pixel(1, 35), 0x224422);
}

#[test]
fn render3d_halves_corrected_distance_with_half_cosine() {
    let m = maze_of("++++\n+  +\n++++");
    let mut fb = Framebuffer::new(1, 4);
    let p = player_at(150 * ONE, 150 * ONE);
    let tex = solid(0x888888);
    let dirs = vec![ColumnDir { cos_a: ONE, sin_a: 0, cos_corr: ONE / 2 }];
    let mut z = vec![0i64; 1];
    render3d(&mut fb, &m, &p, &tex, &tex, &tex, &dirs, 100, &mut z);
    assert_eq!(z[0], 75 * ONE);
}

#[test]
fn render2d_draws_cells_without_sky_or_floor() {
    let m = maze_of("g");
    let mut fb = Framebuffer::new(10, 10);
    let p = Player { x: 5 * ONE, y: 5 * ONE, a: 0, fov: 68629 };
    render2d(&mut fb, &m, &p, 3, &vec![]);
    // The goal cell square is red, the player dot white, and everything
    // else stays at the background: no sky or floor fill happens here.
    assert_eq!(fb.get_pixel(1, 1), 0xFF0000);
    assert_eq!(fb.get_pixel(5, 5), 0xFFFFFF);
    assert_eq!(fb.get_pixel(8, 8), 0);
}

#[test]
fn render_minimap_draws_cells_and_player_dot() {
    let m = maze_of("g+\n++");
    let mut fb = Framebuffer::new(1300, 900);
    let p = player_at(150 * ONE, 150 * ONE);
    let wall = solid(0x777777);
    render_minimap(&mut fb, &m, &p, &wall, 100);
    let mx = 1300 - 300;
    let my = 900 - 210;
    // Goal cell scaled into the minimap is red; wall cells take the wall
    // texture's corner color.
    assert_eq!(fb.get_pixel(mx + 50, my + 50), 0xFF0000);
    assert_eq!(fb.get_pixel(mx + 150, my + 50), 0x777777);
    // The player dot lands at 150 scaled by 200 / (2 * 100), drawn last.
    assert_eq!(fb.get_pixel(mx + 150, my + 150), 0xFF0000);
    // Nothing left of or above the minimap is touched.
    assert_eq!(fb.get_pixel(mx - 1, my + 50), 0);
    assert_eq!(fb.get_pixel(mx + 50, my - 1), 0);
}

#[test]
fn render_minimap_skips_small_framebuffers() {
    let m = maze_of("g+\n++");
    let mut fb = Framebuffer::new(250, 100);
    let before = fb.buffer.clone();
    let p = player_at(150 * ONE, 150 * ONE);
    let wall = solid(0x777777);
    render_minimap(&mut fb, &m, &p, &wall, 100);
    assert_eq!(fb.buffer, before);
}
