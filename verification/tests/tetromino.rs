use tetris::tetromino::{Color, Tetromino, TetrominoIter, SHAPES};

const CATALOG: [(Color, [u16; 4]); 7] = [
    (Color::Cyan, [0x0F00, 0x2222, 0x00F0, 0x4444]),
    (Color::Blue, [0x44C0, 0x8E00, 0x6440, 0x0E20]),
    (Color::Orange, [0x4460, 0x0E80, 0xC440, 0x2E00]),
    (Color::Yellow, [0xCC00, 0xCC00, 0xCC00, 0xCC00]),
    (Color::Green, [0x06C0, 0x8C40, 0x6C00, 0x4620]),
    (Color::Purple, [0x0E40, 0x4C40, 0x4E00, 0x4640]),
    (Color::Red, [0x0C60, 0x4C80, 0xC600, 0x2640]),
];

fn shape(index: usize) -> Tetromino {
    Tetromino::from_catalog(index).expect("a catalog shape")
}

fn cells_of(piece: &Tetromino) -> Vec<(i32, i32)> {
    let mut walk: TetrominoIter = piece.clone().into_iter();
    let mut cells = Vec::new();
    while let Some(cell) = walk.next() {
        cells.push(cell);
    }
    cells
}

#[test]
fn catalog_has_seven_shapes() {
    assert_eq!(SHAPES, 7);
    for index in 0..7 {
        assert!(Tetromino::from_catalog(index).is_some());
    }
    assert!(Tetromino::from_catalog(7).is_none());
    assert!(Tetromino::from_catalog(usize::MAX).is_none());
}

#[test]
fn catalog_colors_and_layouts() {
    for (index, (color, layouts)) in CATALOG.iter().enumerate() {
        let mut piece = shape(index);
        assert_eq!(piece.color(), *color);
        for layout in layouts.iter() {
            assert_eq!(piece.blocks(), *layout);
            piece.rotate();
        }
        assert_eq!(piece.blocks(), layouts[0]);
        assert_eq!(piece.color(), *color);
    }
}

#[test]
fn every_layout_has_four_cells() {
    for index in 0..7 {
        let mut piece = shape(index);
        for _ in 0..4 {
            let cells = cells_of(&piece);
            assert_eq!(cells.len(), 4);
            assert_eq!(piece.blocks().count_ones(), 4);
            piece.rotate();
        }
    }
}

#[test]
fn cells_are_the_set_bits_in_ascending_order() {
    for index in 0..7 {
        let mut piece = shape(index);
        for _ in 0..4 {
            let mask = piece.blocks();
            let mut expected = Vec::new();
            for i in 0..16 {
                if mask & (0x8000u16 >> i) != 0 {
                    expected.push((i % 4, i / 4));
                }
            }
            assert_eq!(cells_of(&piece), expected);
            piece.rotate();
        }
    }
}

#[test]
fn cells_of_the_bar() {
    let mut bar = shape(0);
    assert_eq!(cells_of(&bar), vec![(0, 1), (1, 1), (2, 1), (3, 1)]);
    bar.rotate();
    assert_eq!(cells_of(&bar), vec![(2, 0), (2, 1), (2, 2), (2, 3)]);
    bar.rotate();
    assert_eq!(cells_of(&bar), vec![(0, 2), (1, 2), (2, 2), (3, 2)]);
    bar.rotate();
    assert_eq!(cells_of(&bar), vec![(1, 0), (1, 1), (1, 2), (1, 3)]);
}

#[test]
fn cells_of_the_square_and_the_hooks() {
    assert_eq!(cells_of(&shape(3)), vec![(0, 0), (1, 0), (0, 1), (1, 1)]);
    assert_eq!(cells_of(&shape(1)), vec![(1, 0), (1, 1), (0, 2), (1, 2)]);
    assert_eq!(cells_of(&shape(2)), vec![(1, 0), (1, 1), (1, 2), (2, 2)]);
    assert_eq!(cells_of(&shape(4)), vec![(1, 1), (2, 1), (0, 2), (1, 2)]);
    assert_eq!(cells_of(&shape(5)), vec![(0, 1), (1, 1), (2, 1), (1, 2)]);
    assert_eq!(cells_of(&shape(6)), vec![(0, 1), (1, 1), (1, 2), (2, 2)]);
}

#[test]
fn walk_can_be_started_again() {
    let piece = shape(5);
    let first = cells_of(&piece);
    let second = cells_of(&piece);
    assert_eq!(first, second);
    assert_eq!(piece.blocks(), 0x0E40);
}

#[test]
fn walk_stays_over_once_it_is_over() {
    let mut walk = shape(3).into_iter();
    assert_eq!(walk.next(), Some((0, 0)));
    assert_eq!(walk.next(), Some((1, 0)));
    assert_eq!(walk.next(), Some((0, 1)));
    assert_eq!(walk.next(), Some((1, 1)));
    assert_eq!(walk.next(), None);
    assert_eq!(walk.next(), None);
}

#[test]
fn rotate_then_rotate_back_restores() {
    for index in 0..7 {
        let mut piece = shape(index);
        for _ in 0..4 {
            let mask = piece.blocks();
            let cells = cells_of(&piece);
            piece.rotate();
            piece.rotate_back();
            assert_eq!(piece.blocks(), mask);
            assert_eq!(cells_of(&piece), cells);
            piece.rotate_back();
            piece.rotate();
            assert_eq!(piece.blocks(), mask);
            assert_eq!(cells_of(&piece), cells);
            piece.rotate();
        }
    }
}

#[test]
fn rotation_wraps_around() {
    let mut piece = shape(1);
    piece.rotate_back();
    assert_eq!(piece.blocks(), 0x0E20);
    piece.rotate();
    assert_eq!(piece.blocks(), 0x44C0);
    piece.rotate();
    piece.rotate();
    piece.rotate();
    assert_eq!(piece.blocks(), 0x0E20);
    piece.rotate();
    assert_eq!(piece.blocks(), 0x44C0);
}

#[test]
fn rotation_keeps_the_color() {
    let mut piece = shape(6);
    piece.rotate();
    assert_eq!(piece.color(), Color::Red);
    piece.rotate_back();
    piece.rotate_back();
    assert_eq!(piece.color(), Color::Red);
}

#[test]
fn a_drawn_piece_is_a_catalog_shape() {
    for _ in 0..200 {
        let piece = Tetromino::new();
        let found = CATALOG
            .iter()
            .any(|(color, layouts)| piece.color() == *color && piece.blocks() == layouts[0]);
        assert!(found);
        assert_ne!(piece.color(), Color::Empty);
        assert_eq!(cells_of(&piece).len(), 4);
    }
}

#[test]
fn drawn_pieces_differ() {
    let first = Tetromino::new().color();
    let mut other = false;
    for _ in 0..1000 {
        if Tetromino::new().color() != first {
            other = true;
        }
    }
    assert!(other);
}
