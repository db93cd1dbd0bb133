use maze_raycaster::maze::{Maze, cell_of_fp, get_goal_position};

fn maze_of(text: &str) -> Maze {
    Maze::from_bytes(&text.as_bytes().to_vec())
}

#[test]
fn parses_rows_and_cells() {
    let m = maze_of("+-+\n| |\n+g+");
    assert_eq!(m.rows(), 3);
    assert_eq!(m.row_len(0), 3);
    assert_eq!(m.cell_at(0, 0), '+');
    assert_eq!(m.cell_at(0, 1), '-');
    assert_eq!(m.cell_at(1, 0), '|');
    assert_eq!(m.cell_at(1, 1), ' ');
    assert_eq!(m.cell_at(2, 1), 'g');
}

#[test]
fn trailing_newline_adds_no_row() {
    let m = maze_of("+++\n+ +\n+++\n");
    assert_eq!(m.rows(), 3);
}

#[test]
fn jagged_rows_are_kept() {
    let m = maze_of("++++\n++\n+++");
    assert_eq!(m.rows(), 3);
    assert_eq!(m.row_len(0), 4);
    assert_eq!(m.row_len(1), 2);
    assert_eq!(m.row_len(2), 3);
}

#[test]
fn is_open_inside_and_outside() {
    let m = maze_of("+++\n+ +\n+++");
    assert!(m.is_open(1, 1));
    assert!(!m.is_open(0, 0));
    // Any index outside the grid counts as blocked.
    assert!(!m.is_open(5, 1));
    assert!(!m.is_open(1, 5));
}

#[test]
fn cell_of_fp_floors_and_saturates() {
    // 150 world pixels with block 100 lies in cell 1.
    assert_eq!(cell_of_fp(150 * 65536, 100), 1);
    assert_eq!(cell_of_fp(199 * 65536, 100), 1);
    assert_eq!(cell_of_fp(200 * 65536, 100), 2);
    // Negative coordinates saturate to cell 0.
    assert_eq!(cell_of_fp(-5 * 65536, 100), 0);
}

#[test]
fn goal_position_is_first_goal_cell_scaled() {
    let m = maze_of("+++++\n+   +\n+++g+\n+++++");
    let g = get_goal_position(&m, 100);
    assert_eq!(g.0, 3 * 100 * 65536);
    assert_eq!(g.1, 2 * 100 * 65536);
}

#[test]
fn goal_position_without_goal_is_origin() {
    let m = maze_of("+++\n+ +\n+++");
    assert_eq!(get_goal_position(&m, 100), (0, 0));
}
