use shisen::board::Board;
use shisen::events::Key;
use shisen::matrix::{Matrix, Position, Size};
use shisen::tile::{Tile, NUM_TILES};

/// A board with the given interior cells, padded, and nothing selected.
fn board_from(width: usize, height: usize, cells: Vec<Option<Tile>>) -> Board {
    let mut tiles = Matrix::new(Size::from_width_height(width, height), cells).unwrap();
    tiles.add_border(None);
    Board { tiles, confirmed_selection: None, tentative_selection: None, shown_path: None }
}

#[test]
fn new_board_is_balanced() {
    let board = Board::new(Size::from_width_height(18, 8));
    let size = board.size();
    assert_eq!(size.width(), 20);
    assert_eq!(size.height(), 10);
    let rows = board.rows();
    // the padding ring is empty
    for y in 0..10 {
        assert_eq!(rows[y][0], None);
        assert_eq!(rows[y][19], None);
    }
    for x in 0..20 {
        assert_eq!(rows[0][x], None);
        assert_eq!(rows[9][x], None);
    }
    // every tile type occupies exactly area / NUM_TILES cells
    let expected = 18 * 8 / NUM_TILES;
    for tile in Tile::all() {
        let mut count = 0;
        for row in rows.iter() {
            for cell in row.iter() {
                if *cell == Some(tile) {
                    count += 1;
                }
            }
        }
        assert_eq!(count, expected);
    }
}

#[test]
fn click_sequence_clears_pair() {
    // interior: A = Blank at (0,0), B = Sticks1 at (1,0), C = Blank at (2,0)
    let mut board = board_from(
        3,
        3,
        vec![
            Some(Tile::Blank),
            Some(Tile::Sticks1),
            Some(Tile::Blank),
            None,
            None,
            None,
            None,
            None,
            None,
        ],
    );
    let a = Position::from_xy(1, 1);
    let b = Position::from_xy(2, 1);
    let c = Position::from_xy(3, 1);

    board.on_click(a, 0);
    assert_eq!(board.confirmed_selection, Some(a));

    // a differently-typed tile re-anchors
    board.on_click(b, 1);
    assert_eq!(board.confirmed_selection, Some(b));
    assert_eq!(board.tentative_selection, None);

    // back to A, then an identically-typed, connectable C clears both
    board.on_click(a, 2);
    assert_eq!(board.confirmed_selection, Some(a));
    board.on_click(c, 3);
    assert_eq!(board.at(a), None);
    assert_eq!(board.at(c), None);
    assert_eq!(board.at(b), Some(Tile::Sticks1));
    assert_eq!(board.confirmed_selection, None);
    let (stamp, path) = board.shown_path.clone().expect("cleared path recorded");
    assert_eq!(stamp, 3);
    assert_eq!(path.first(), Some(&a));
    assert_eq!(path.last(), Some(&c));
}

#[test]
fn click_empty_is_ignored_and_anchor_toggles() {
    let mut board = board_from(
        3,
        3,
        vec![
            Some(Tile::Blank),
            None,
            Some(Tile::Blank),
            None,
            None,
            None,
            None,
            None,
            None,
        ],
    );
    let empty = Position::from_xy(2, 1);
    let a = Position::from_xy(1, 1);

    // clicking an empty cell while nothing is confirmed is a no-op
    board.on_click(empty, 0);
    assert_eq!(board.confirmed_selection, None);
    assert_eq!(board.tentative_selection, None);

    // clicking the confirmed tile clears the confirmation
    board.on_click(a, 1);
    assert_eq!(board.confirmed_selection, Some(a));
    board.on_click(a, 2);
    assert_eq!(board.confirmed_selection, None);
    assert_eq!(board.at(a), Some(Tile::Blank));
}

#[test]
fn unconnectable_match_reanchors() {
    // the two Blanks touch only through occupied cells
    let mut board = board_from(
        3,
        3,
        vec![
            Some(Tile::Blank),
            Some(Tile::Sticks1),
            Some(Tile::Sticks1),
            Some(Tile::Sticks1),
            Some(Tile::Sticks1),
            Some(Tile::Sticks1),
            Some(Tile::Sticks1),
            Some(Tile::Blank),
            Some(Tile::Sticks1),
        ],
    );
    let a = Position::from_xy(1, 1);
    let b = Position::from_xy(2, 3);
    board.on_click(a, 0);
    board.on_click(b, 1);
    assert_eq!(board.confirmed_selection, Some(b));
    assert_eq!(board.tentative_selection, None);
    assert_eq!(board.at(a), Some(Tile::Blank));
    assert_eq!(board.at(b), Some(Tile::Blank));
}

#[test]
fn directional_move_wraps() {
    // interior width 18: a cursor at interior column 0 moving left
    // lands at interior column 17
    let mut board = Board::new(Size::from_width_height(18, 8));
    board.tentative_selection = Some((0, Position::from_xy(1, 1)));
    board.move_selection(-1, 0, 5);
    assert_eq!(board.tentative_selection, Some((5, Position::from_xy(18, 1))));

    // and one step right wraps back
    board.move_selection(1, 0, 6);
    assert_eq!(board.tentative_selection, Some((6, Position::from_xy(1, 1))));
}

#[test]
fn move_seeds_then_steps() {
    let mut board = board_from(
        3,
        3,
        vec![
            Some(Tile::Blank),
            None,
            Some(Tile::Blank),
            None,
            None,
            None,
            None,
            None,
            None,
        ],
    );
    // with no anchor the cursor seeds at the first interior cell
    board.move_selection(1, 0, 7);
    assert_eq!(board.tentative_selection, Some((7, Position::from_xy(1, 1))));
    // with an anchor the seeded cursor immediately steps off it
    board.tentative_selection = None;
    board.confirmed_selection = Some(Position::from_xy(1, 1));
    board.move_selection(1, 0, 8);
    assert_eq!(board.tentative_selection, Some((8, Position::from_xy(2, 1))));
}

#[test]
fn keys_drive_the_machine() {
    let mut board = board_from(
        3,
        3,
        vec![
            Some(Tile::Blank),
            None,
            Some(Tile::Blank),
            None,
            None,
            None,
            None,
            None,
            None,
        ],
    );
    // seed the cursor on A, promote it with Enter
    board.move_selection(0, 0, 0);
    assert!(board.on_key(Key::Enter, 1));
    assert_eq!(board.confirmed_selection, Some(Position::from_xy(1, 1)));
    // walk the cursor onto C and resolve the pair
    assert!(board.on_key(Key::Right, 2));
    assert!(board.on_key(Key::Right, 3));
    assert_eq!(board.tentative_selection.map(|(_, p)| p), Some(Position::from_xy(3, 1)));
    assert!(board.on_key(Key::Enter, 4));
    assert_eq!(board.at(Position::from_xy(1, 1)), None);
    assert_eq!(board.at(Position::from_xy(3, 1)), None);
    // Backspace clears an anchor, unknown keys are not consumed
    board.on_click(Position::from_xy(2, 1), 5);
    assert_eq!(board.confirmed_selection, None);
    assert!(board.on_key(Key::Backspace, 6));
    assert_eq!(board.confirmed_selection, None);
    assert!(!board.on_key(Key::Other, 7));
}

#[test]
fn tiles_unshuffled_repeats_catalog() {
    let deck = Board::tiles_unshuffled(2);
    assert_eq!(deck.len(), 2 * NUM_TILES);
    let all = Tile::all();
    for (i, tile) in all.iter().enumerate() {
        assert_eq!(deck[i], Some(*tile));
        assert_eq!(deck[NUM_TILES + i], Some(*tile));
    }
}

#[test]
fn shuffle_preserves_tiles() {
    let mut board = board_from(
        3,
        3,
        vec![
            Some(Tile::Blank),
            Some(Tile::Sticks1),
            Some(Tile::Circles1),
            None,
            None,
            None,
            None,
            None,
            None,
        ],
    );
    board.shuffle();
    let mut blanks = 0;
    let mut sticks = 0;
    let mut circles = 0;
    let mut empty = 0;
    for row in board.rows().iter() {
        for cell in row.iter() {
            match cell {
                Some(Tile::Blank) => blanks += 1,
                Some(Tile::Sticks1) => sticks += 1,
                Some(Tile::Circles1) => circles += 1,
                None => empty += 1,
                _ => panic!("tile type appeared from nowhere"),
            }
        }
    }
    assert_eq!((blanks, sticks, circles, empty), (1, 1, 1, 22));
}

#[test]
fn set_at_only_touches_the_interior() {
    let mut board = board_from(2, 2, vec![None, None, None, None]);
    assert!(board.set_at(Position::from_xy(1, 1), Some(Tile::Flower)));
    assert_eq!(board.at(Position::from_xy(1, 1)), Some(Tile::Flower));
    assert!(!board.set_at(Position::from_xy(0, 0), Some(Tile::Flower)));
    assert_eq!(board.at(Position::from_xy(0, 0)), None);
    assert!(board.is_occupied(Position::from_xy(1, 1)));
    assert!(!board.is_occupied(Position::from_xy(2, 2)));
}

#[test]
fn enter_without_a_pair_is_a_noop() {
    let mut board = board_from(
        3,
        3,
        vec![
            Some(Tile::Blank),
            None,
            Some(Tile::Blank),
            None,
            None,
            None,
            None,
            None,
            None,
        ],
    );
    // nothing selected
    assert!(board.on_key(Key::Enter, 0));
    assert_eq!(board.confirmed_selection, None);
    assert_eq!(board.tentative_selection, None);
    // only an anchor
    board.on_click(Position::from_xy(1, 1), 1);
    assert!(board.on_key(Key::Enter, 2));
    assert_eq!(board.confirmed_selection, Some(Position::from_xy(1, 1)));
    // a tentative cursor on an empty cell is not promoted
    board.undo_selection();
    board.tentative_selection = Some((3, Position::from_xy(2, 1)));
    assert!(board.on_key(Key::Enter, 4));
    assert_eq!(board.confirmed_selection, None);
    assert_eq!(board.tentative_selection, Some((3, Position::from_xy(2, 1))));
}
