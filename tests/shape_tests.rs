use futris::shape::SHAPE_COUNT;
use futris::Shape;

const ALL: [Shape; 7] = [Shape::I, Shape::O, Shape::T, Shape::S, Shape::Z, Shape::J, Shape::L];

#[test]
fn every_layout_has_four_distinct_cells() {
    for shape in ALL.iter() {
        for rotation in 0..4 {
            let tiles = shape.tiles(rotation);
            assert_eq!(tiles.len(), 4);
            for i in 0..4 {
                assert!(tiles[i].0 >= 0 && tiles[i].0 <= 3);
                assert!(tiles[i].1 >= 0 && tiles[i].1 <= 3);
                for j in 0..4 {
                    if i != j {
                        assert_ne!(tiles[i], tiles[j]);
                    }
                }
            }
        }
    }
}

#[test]
fn layouts_match_the_table() {
    assert_eq!(Shape::I.tiles(0), vec![(0, 1), (1, 1), (2, 1), (3, 1)]);
    assert_eq!(Shape::I.tiles(1), vec![(2, 0), (2, 1), (2, 2), (2, 3)]);
    assert_eq!(Shape::T.tiles(2), vec![(0, 1), (1, 1), (2, 1), (1, 2)]);
    assert_eq!(Shape::L.tiles(3), vec![(0, 0), (1, 0), (1, 1), (1, 2)]);
    assert_eq!(Shape::S.tiles(1), vec![(1, 0), (1, 1), (2, 1), (2, 2)]);
}

#[test]
fn square_is_rotation_invariant() {
    for rotation in 0..4 {
        assert_eq!(Shape::O.tiles(rotation), Shape::O.tiles(0));
    }
}

#[test]
fn spawn_columns_centre_the_piece() {
    assert_eq!(Shape::I.origin(10), 3);
    assert_eq!(Shape::O.origin(10), 3);
    assert_eq!(Shape::S.origin(10), 4);
    assert_eq!(Shape::L.origin(10), 3);
    assert_eq!(Shape::Z.origin(4), 0);
}

#[test]
fn indices_map_to_all_seven_kinds() {
    let kinds: Vec<Shape> = (0..SHAPE_COUNT).map(Shape::from_index).collect();
    assert_eq!(kinds, ALL.to_vec());
}

#[test]
fn random_kinds_are_uniform() {
    let trials = 70_000;
    let mut counts = [0u32; 7];
    for _ in 0..trials {
        let shape = Shape::random();
        let index = ALL.iter().position(|s| *s == shape).unwrap();
        counts[index] += 1;
    }
    let expected = trials as f64 / 7.0;
    for count in counts.iter() {
        // about six standard deviations of a binomial(70000, 1/7) count
        assert!((*count as f64 - expected).abs() < 600.0, "counts {:?}", counts);
    }
}
