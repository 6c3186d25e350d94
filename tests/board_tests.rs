use futris::board::{BOARD_HEIGHT, BOARD_WIDTH, SCORE_PER_LINE};
use futris::{Board, Move, Shape, Tetrimino};

/// Everything a caller can observe of a board.
fn snapshot(b: &Board) -> (bool, u64, Tetrimino, Vec<Option<Shape>>) {
    let mut cells = Vec::new();
    for y in 0..b.height() {
        for x in 0..b.width() {
            cells.push(b.cell(x, y));
        }
    }
    (b.in_progress(), b.score(), b.tetrimino(), cells)
}

fn settled_count(b: &Board) -> usize {
    snapshot(b).3.iter().filter(|c| c.is_some()).count()
}

#[test]
fn new_board_is_empty_and_running() {
    let b = Board::new(10, 30, 100, Shape::T);
    assert!(b.in_progress());
    assert_eq!(b.score(), 0);
    assert_eq!(b.width(), 10);
    assert_eq!(b.height(), 30);
    assert_eq!(b.tetrimino(), Tetrimino { x: 3, y: 0, shape: Shape::T, rotation: 0 });
    assert_eq!(settled_count(&b), 0);
}

#[test]
fn initial_board_uses_the_standard_size() {
    let b = Board::initial_board();
    assert_eq!(b.width(), BOARD_WIDTH);
    assert_eq!(b.height(), BOARD_HEIGHT);
    assert!(b.in_progress());
    assert_eq!(b.tetrimino().y, 0);
    assert_eq!(b.tetrimino().rotation, 0);
}

#[test]
fn random_tetrimino_spawns_at_the_top() {
    let t = Board::random_tetrimino(10);
    assert_eq!(t.y, 0);
    assert_eq!(t.rotation, 0);
    assert_eq!(t.x, t.shape.origin(10));
}

#[test]
fn illegal_position_checks_walls_floor_and_settled_cells() {
    let mut b = Board::new(4, 6, 1, Shape::I);
    b.hard_drop(Shape::O);
    // the bottom row was filled and cleared; an O settles in columns 1 and 2
    assert_eq!(settled_count(&b), 0);
    b.hard_drop(Shape::T);
    assert!(b.illegal_position(vec![(-1, 2)]));
    assert!(b.illegal_position(vec![(4, 2)]));
    assert!(b.illegal_position(vec![(0, 6)]));
    assert!(!b.illegal_position(vec![(0, -3), (3, -1)]));
    assert!(!b.illegal_position(vec![(0, 5), (3, 5)]));
    assert!(b.illegal_position(vec![(0, 0), (1, 5)]));
    assert!(!b.illegal_position(vec![]));
}

#[test]
fn shifts_stop_at_the_walls() {
    let mut b = Board::new(10, 30, 100, Shape::O);
    for _ in 0..20 {
        b.apply_command(Move::MoveLeft, Shape::O);
    }
    // O occupies columns x + 1 and x + 2
    assert_eq!(b.tetrimino().x, -1);
    for _ in 0..20 {
        b.apply_command(Move::MoveRight, Shape::O);
    }
    assert_eq!(b.tetrimino().x, 7);
}

#[test]
fn rejected_move_leaves_the_board_unchanged() {
    let mut b = Board::new(10, 30, 100, Shape::O);
    for _ in 0..20 {
        b.move_tetrimino_horizontally(-1);
    }
    let before = snapshot(&b);
    b.move_tetrimino_horizontally(-1);
    assert_eq!(snapshot(&b), before);
}

#[test]
fn shift_far_beyond_the_walls_is_rejected() {
    let mut b = Board::new(10, 30, 100, Shape::T);
    let before = snapshot(&b);
    b.move_tetrimino_horizontally(i32::MAX);
    b.move_tetrimino_horizontally(i32::MIN);
    b.move_tetrimino_horizontally(-4);
    assert_eq!(snapshot(&b), before);
    b.move_tetrimino_horizontally(-3);
    assert_eq!(b.tetrimino().x, 0);
}

#[test]
fn rotation_against_the_wall_is_rejected() {
    let mut b = Board::new(10, 30, 100, Shape::I);
    b.rotate_tetrimino();
    assert_eq!(b.tetrimino().rotation, 1);
    // vertical I in column x + 2: move it to column 9
    for _ in 0..20 {
        b.apply_command(Move::MoveRight, Shape::I);
    }
    assert_eq!(b.tetrimino().x, 7);
    let before = snapshot(&b);
    // state 2 spans columns x..x+3 = 7..10: off the right wall
    b.apply_command(Move::RotateRight, Shape::I);
    assert_eq!(snapshot(&b), before);
}

#[test]
fn four_rotations_restore_the_cells() {
    let mut b = Board::new(10, 30, 100, Shape::L);
    b.tick(Shape::L);
    b.tick(Shape::L);
    let before = snapshot(&b);
    for _ in 0..4 {
        b.apply_command(Move::RotateRight, Shape::L);
    }
    assert_eq!(snapshot(&b), before);
}

#[test]
fn tick_moves_the_piece_down_one_row() {
    let mut b = Board::new(10, 30, 100, Shape::Z);
    b.tick(Shape::Z);
    assert_eq!(b.tetrimino().y, 1);
    b.gravity();
    assert_eq!(b.tetrimino().y, 2);
}

#[test]
fn hard_drop_lands_on_the_floor() {
    let mut b = Board::new(10, 30, 100, Shape::O);
    b.apply_command(Move::HardDrop, Shape::T);
    // O cells (4, 28), (5, 28), (4, 29), (5, 29)
    assert_eq!(b.cell(4, 28), Some(Shape::O));
    assert_eq!(b.cell(5, 29), Some(Shape::O));
    assert_eq!(settled_count(&b), 4);
    assert_eq!(b.tetrimino(), Tetrimino { x: 3, y: 0, shape: Shape::T, rotation: 0 });
    assert_eq!(b.score(), 0);
    assert!(b.in_progress());
}

#[test]
fn hard_drop_equals_repeated_soft_drops() {
    let start = || {
        let mut b = Board::new(10, 30, 100, Shape::S);
        b.apply_command(Move::MoveLeft, Shape::J);
        b.apply_command(Move::RotateRight, Shape::J);
        b
    };
    let mut hard = start();
    let mut soft = start();
    hard.apply_command(Move::HardDrop, Shape::J);
    while soft.tetrimino().shape == Shape::S {
        soft.apply_command(Move::SoftDrop, Shape::J);
    }
    assert_eq!(snapshot(&soft), snapshot(&hard));
}

#[test]
fn one_full_row_scores_one_unit() {
    let mut b = Board::new(4, 6, 100, Shape::I);
    b.apply_command(Move::HardDrop, Shape::O);
    assert_eq!(b.score(), 100);
    assert_eq!(settled_count(&b), 0);
    assert!(b.in_progress());
}

#[test]
fn single_row_clear_on_the_standard_board() {
    let mut b = Board::new(BOARD_WIDTH, BOARD_HEIGHT, SCORE_PER_LINE, Shape::O);
    // O in columns 8 and 9 of rows 28 and 29
    while b.tetrimino().x < 7 {
        b.apply_command(Move::MoveRight, Shape::I);
    }
    b.apply_command(Move::HardDrop, Shape::I);
    // I in columns 0..4 of row 29
    while b.tetrimino().x > 0 {
        b.apply_command(Move::MoveLeft, Shape::I);
    }
    b.apply_command(Move::HardDrop, Shape::I);
    assert_eq!(b.score(), 0);
    // I in columns 4..8 of row 29 completes it
    b.apply_command(Move::MoveRight, Shape::T);
    assert_eq!(b.tetrimino().x, 4);
    b.apply_command(Move::HardDrop, Shape::T);
    assert_eq!(b.score(), SCORE_PER_LINE as u64);
    // what was left of row 28 moved down into row 29
    assert_eq!(b.cell(8, 29), Some(Shape::O));
    assert_eq!(b.cell(9, 29), Some(Shape::O));
    assert_eq!(b.cell(0, 29), None);
    assert_eq!(settled_count(&b), 2);
}

#[test]
fn double_row_clear_on_the_standard_board() {
    let mut b = Board::new(BOARD_WIDTH, BOARD_HEIGHT, SCORE_PER_LINE, Shape::O);
    // five O pieces side by side fill the bottom two rows
    for column in 0..5 {
        let target = 2 * column - 1;
        while b.tetrimino().x > target {
            b.apply_command(Move::MoveLeft, Shape::O);
        }
        while b.tetrimino().x < target {
            b.apply_command(Move::MoveRight, Shape::O);
        }
        b.apply_command(Move::HardDrop, Shape::O);
    }
    assert_eq!(b.score(), 4 * SCORE_PER_LINE as u64);
    assert_eq!(settled_count(&b), 0);
}

#[test]
fn rows_above_move_down_by_the_cleared_count() {
    let mut b = Board::new(3, 6, 10, Shape::T);
    b.apply_command(Move::MoveRight, Shape::T);
    assert_eq!(b.tetrimino().x, 0);
    // T fills row 5 and column 1 of row 4; row 5 is cleared
    b.apply_command(Move::HardDrop, Shape::T);
    assert_eq!(b.score(), 10);
    assert_eq!(b.cell(1, 5), Some(Shape::T));
    assert_eq!(b.cell(1, 4), None);
    assert_eq!(settled_count(&b), 1);
}

#[test]
fn rows_below_the_cleared_band_stay() {
    let mut b = Board::new(4, 6, 10, Shape::O);
    // O at x = 0 fills columns 1 and 2 of rows 4 and 5
    b.apply_command(Move::HardDrop, Shape::I);
    // I horizontal fills row 3 entirely, which is cleared
    b.apply_command(Move::HardDrop, Shape::T);
    assert_eq!(b.score(), 10);
    assert_eq!(b.cell(1, 4), Some(Shape::O));
    assert_eq!(b.cell(2, 5), Some(Shape::O));
    assert_eq!(b.cell(0, 3), None);
    assert_eq!(settled_count(&b), 4);
}

#[test]
fn four_rows_at_once_score_sixteen_units() {
    let mut b = Board::new(1, 8, 100, Shape::I);
    b.apply_command(Move::RotateRight, Shape::O);
    assert_eq!(b.tetrimino().rotation, 1);
    b.apply_command(Move::HardDrop, Shape::O);
    assert_eq!(b.score(), 1600);
    assert_eq!(settled_count(&b), 0);
    assert!(b.in_progress());
}

#[test]
fn landing_on_the_top_row_ends_the_game() {
    let mut b = Board::new(4, 2, 100, Shape::I);
    b.apply_command(Move::HardDrop, Shape::O);
    assert_eq!(b.score(), 100);
    assert!(b.in_progress());
    b.apply_command(Move::HardDrop, Shape::T);
    assert!(!b.in_progress());
    assert_eq!(b.cell(1, 0), Some(Shape::O));
}

#[test]
fn nothing_changes_after_game_over() {
    let mut b = Board::new(4, 2, 100, Shape::I);
    b.apply_command(Move::HardDrop, Shape::O);
    b.apply_command(Move::HardDrop, Shape::T);
    assert!(!b.in_progress());
    let before = snapshot(&b);
    for mov in [Move::RotateRight, Move::MoveLeft, Move::MoveRight, Move::SoftDrop, Move::HardDrop] {
        b.apply_command(mov, Shape::L);
        b.move_tetrimino(mov);
        b.tick(Shape::J);
        b.gravity();
        b.drop_tetrimino();
        b.land(Shape::S);
        b.tetrimino_landed();
    }
    assert_eq!(snapshot(&b), before);
}

#[test]
fn largest_score_unit_does_not_overflow() {
    let mut b = Board::new(1, 8, u32::MAX, Shape::I);
    b.rotate_tetrimino();
    b.hard_drop(Shape::I);
    assert_eq!(b.score(), 16 * u32::MAX as u64);
}

#[test]
fn cell_outside_the_grid_is_empty() {
    let b = Board::new(4, 6, 1, Shape::O);
    assert_eq!(b.cell(-1, 0), None);
    assert_eq!(b.cell(0, 6), None);
    assert_eq!(b.cell(4, 0), None);
}
