use maze_raycaster::game::{
    has_won, next_screen, rounded_cell, toggle_mode, FpsCounter, Mode, Screen,
};
use maze_raycaster::maze::{get_goal_position, Maze};
use maze_raycaster::player::{process_events, InputState, Player, ROTATION_SPEED_FP};

const ONE: i64 = 65536;

fn maze_of(text: &str) -> Maze {
    Maze::from_bytes(&text.as_bytes().to_vec())
}

fn keys(left: bool, right: bool, up: bool, down: bool) -> InputState {
    InputState { left, right, up, down }
}

#[test]
fn mode_toggle_flips() {
    assert_eq!(toggle_mode(Mode::ThreeD), Mode::TwoD);
    assert_eq!(toggle_mode(Mode::TwoD), Mode::ThreeD);
}

#[test]
fn mode_toggle_has_period_two() {
    for m in [Mode::TwoD, Mode::ThreeD] {
        assert_eq!(toggle_mode(toggle_mode(m)), m);
    }
}

#[test]
fn screen_transitions() {
    assert_eq!(next_screen(Screen::Menu, false, false), Screen::Menu);
    assert_eq!(next_screen(Screen::Menu, true, false), Screen::Game);
    assert_eq!(next_screen(Screen::Game, false, false), Screen::Game);
    assert_eq!(next_screen(Screen::Game, false, true), Screen::Win);
    assert_eq!(next_screen(Screen::Win, true, false), Screen::Win);
    assert_eq!(next_screen(Screen::Win, false, true), Screen::Win);
}

#[test]
fn rounded_cell_rounds_to_nearest() {
    assert_eq!(rounded_cell(149 * ONE, 100), 1);
    assert_eq!(rounded_cell(150 * ONE, 100), 2);
    assert_eq!(rounded_cell(250 * ONE, 100), 3);
    assert_eq!(rounded_cell(-40 * ONE, 100), 0);
}

#[test]
fn victory_iff_rounded_cells_match() {
    let p = Player { x: 195 * ONE, y: 228 * ONE, a: 0, fov: 68629 };
    // Goal wall at cell (2, 2): world (200, 200).
    assert!(has_won(&p, 200 * ONE, 200 * ONE, 100));
    let q = Player { x: 140 * ONE, y: 228 * ONE, a: 0, fov: 68629 };
    assert!(!has_won(&q, 200 * ONE, 200 * ONE, 100));
}

#[test]
fn fps_counter_reports_after_a_second_and_resets() {
    let mut c = FpsCounter::new(0);
    assert_eq!(c.tick(500), None);
    assert_eq!(c.frame_count, 1);
    // Second frame lands at the one-second mark: 2 frames over 1000 ms.
    assert_eq!(c.tick(1000), Some(2));
    assert_eq!(c.frame_count, 0);
    assert_eq!(c.last_time_ms, 1000);
    // 3 frames over 2 seconds round to 2 per second.
    assert_eq!(c.tick(1500), None);
    assert_eq!(c.tick(1900), None);
    assert_eq!(c.tick(3000), Some(2));
}

#[test]
fn rotation_accumulates_and_wraps_near_two_pi() {
    let m = maze_of("+++\n+ +\n+++");
    let a0 = 68629; // pi / 3 in fixed point
    let mut p = Player { x: 150 * ONE, y: 150 * ONE, a: a0, fov: 68629 };
    for _ in 0..100 {
        process_events(&mut p, &m, &keys(false, true, false, false), ONE, 0, 100);
    }
    assert_eq!(p.a, a0 + 100 * ROTATION_SPEED_FP);
    // One hundred rotation ticks come to one full turn, up to the rounding
    // of the per-tick constant: 2 * pi is 411775 in fixed point.
    let turn = p.a - a0;
    assert!((turn - 411775).abs() < 1000);
}

#[test]
fn collision_blocks_movement_into_walls() {
    // A wall directly east of the start: holding up never enters it.
    let m = maze_of("++++\n+ ++\n++++");
    let mut p = Player { x: 150 * ONE, y: 150 * ONE, a: 0, fov: 68629 };
    for _ in 0..100 {
        process_events(&mut p, &m, &keys(false, false, true, false), ONE, 0, 100);
        assert!(p.x < 200 * ONE);
        assert_eq!(p.y, 150 * ONE);
    }
    assert_eq!(p.x, 190 * ONE);
}

#[test]
fn rejected_moves_leave_position_unchanged() {
    let m = maze_of("+++\n+ +\n+++");
    let mut p = Player { x: 150 * ONE, y: 150 * ONE, a: 0, fov: 68629 };
    // Facing a wall 50 units ahead, ten steps of 10 stop at 190.
    for _ in 0..10 {
        process_events(&mut p, &m, &keys(false, false, true, false), ONE, 0, 100);
    }
    assert_eq!(p.x, 190 * ONE);
    // Down moves back west through open cells.
    process_events(&mut p, &m, &keys(false, false, false, true), ONE, 0, 100);
    assert_eq!(p.x, 180 * ONE);
}

#[test]
fn menu_to_game_to_win() {
    // A one-cell-wide corridor east from the start to the goal wall at
    // cell (3, 2); its adjacent open cell rounds to the goal's cell.
    let m = maze_of("+++++\n+   +\n+++g+\n+++++");
    let goal = get_goal_position(&m, 100);
    assert_eq!(goal, (3 * 100 * ONE, 2 * 100 * ONE));

    let mut p = Player { x: 150 * ONE, y: 150 * ONE, a: 0, fov: 68629 };
    let mut screen = Screen::Menu;
    screen = next_screen(screen, true, false);
    assert_eq!(screen, Screen::Game);

    let mut ticks = 0;
    while screen == Screen::Game && ticks < 100 {
        process_events(&mut p, &m, &keys(false, false, true, false), ONE, 0, 100);
        let won = has_won(&p, goal.0, goal.1, 100);
        screen = next_screen(screen, false, won);
        ticks += 1;
    }
    assert_eq!(screen, Screen::Win);
    // Ten eastward steps of 10 world pixels reach x = 250, which rounds to
    // the goal column.
    assert_eq!(ticks, 10);
    assert_eq!(p.x, 250 * ONE);
}
