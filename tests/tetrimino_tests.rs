use futris::{Shape, Tetrimino};

#[test]
fn tiles_are_translated_by_the_anchor() {
    let t = Tetrimino { x: 3, y: 5, shape: Shape::T, rotation: 0 };
    assert_eq!(t.tiles(), vec![(4, 5), (3, 6), (4, 6), (5, 6)]);
}

#[test]
fn tiles_offset_adds_the_offset() {
    let t = Tetrimino { x: 3, y: 5, shape: Shape::O, rotation: 2 };
    assert_eq!(t.tiles_offset((-1, 1)), vec![(3, 6), (4, 6), (3, 7), (4, 7)]);
}

#[test]
fn tiles_rotated_uses_the_next_state() {
    let t = Tetrimino { x: 0, y: 0, shape: Shape::I, rotation: 3 };
    assert_eq!(t.tiles_rotated(), vec![(0, 1), (1, 1), (2, 1), (3, 1)]);
}

#[test]
fn four_rotations_return_to_the_start() {
    let start = Tetrimino { x: 2, y: 7, shape: Shape::J, rotation: 1 };
    let mut t = start;
    for _ in 0..4 {
        t.rotate();
    }
    assert_eq!(t, start);
    assert_eq!(t.tiles(), start.tiles());
}

#[test]
fn spawn_places_the_piece_at_the_top() {
    let t = Tetrimino::spawn(Shape::S, 10);
    assert_eq!(t, Tetrimino { x: 4, y: 0, shape: Shape::S, rotation: 0 });
}
