use shisen::direction::Direction;
use shisen::elapsed::Elapsed;
use shisen::game::Game;
use shisen::matrix::{Matrix, Position, Size};
use shisen::tile::{Tile, NUM_TILES};
use shisen::ui::{ControlFlow, GameState, Ui};
use std::collections::HashSet;

#[test]
fn size_accessors() {
    let s = Size::from_width_height(18, 8);
    assert_eq!(s.width(), 18);
    assert_eq!(s.height(), 8);
    assert_eq!(s.columns(), 18);
    assert_eq!(s.rows(), 8);
    assert_eq!(s.area(), 144);
    let t = Size::from_rows_cols(8, 18);
    assert_eq!(t.width(), 18);
    assert_eq!(t.height(), 8);
    assert!(s.contains(Position::from_xy(17, 7)));
    assert!(!s.contains(Position::from_xy(18, 7)));
    assert!(!s.contains(Position::from_xy(17, 8)));
    assert_eq!(s.max_within(), Position::from_xy(17, 7));
}

#[test]
fn position_accessors() {
    let p = Position::from_xy(3, 5);
    assert_eq!(p.x(), 3);
    assert_eq!(p.y(), 5);
    assert_eq!(p.column(), 3);
    assert_eq!(p.row(), 5);
    assert_eq!(Position::from_row_col(5, 3), p);
    assert_eq!(p.with_x(9), Position::from_xy(9, 5));
    assert_eq!(p.with_y(9), Position::from_xy(3, 9));
    assert_eq!(p.with_row(9), Position::from_xy(3, 9));
    assert_eq!(p.with_column(9), Position::from_xy(9, 5));
}

#[test]
fn neighbors_are_one_step_on_one_axis() {
    let p = Position::from_xy(3, 5);
    assert!(p.is_neighbor_with(Position::from_xy(4, 5)));
    assert!(p.is_neighbor_with(Position::from_xy(2, 5)));
    assert!(p.is_neighbor_with(Position::from_xy(3, 4)));
    assert!(p.is_neighbor_with(Position::from_xy(3, 6)));
    assert!(!p.is_neighbor_with(p));
    assert!(!p.is_neighbor_with(Position::from_xy(4, 6)));
    assert!(!p.is_neighbor_with(Position::from_xy(5, 5)));
}

#[test]
fn move_wrapping_wraps_both_axes() {
    let within = Size::from_width_height(18, 8);
    let mut p = Position::from_xy(0, 0);
    p.move_wrapping(-1, -1, within);
    assert_eq!(p, Position::from_xy(17, 7));
    p.move_wrapping(1, 1, within);
    assert_eq!(p, Position::from_xy(0, 0));
    p.move_wrapping(1, 0, within);
    assert_eq!(p, Position::from_xy(1, 0));
}

#[test]
fn matrix_rejects_mismatched_data() {
    let cells: Vec<Option<Tile>> = vec![None, None, None];
    assert!(Matrix::new(Size::from_width_height(2, 2), cells).is_none());
}

#[test]
fn matrix_access_is_bounds_checked() {
    let mut m = Matrix::new(
        Size::from_width_height(2, 1),
        vec![Some(Tile::Blank), Some(Tile::Sticks1)],
    )
    .unwrap();
    assert_eq!(m.index(Position::from_xy(1, 0)), Some(1));
    assert_eq!(m.index(Position::from_xy(2, 0)), None);
    assert_eq!(m.get(Position::from_xy(0, 0)), Some(&Some(Tile::Blank)));
    assert_eq!(m.get(Position::from_xy(0, 1)), None);
    assert!(m.set(Position::from_xy(1, 0), None));
    assert_eq!(m.get(Position::from_xy(1, 0)), Some(&None));
    assert!(!m.set(Position::from_xy(5, 5), Some(Tile::Blank)));
}

#[test]
fn matrix_swap_exchanges_cells() {
    let mut m = Matrix::new(
        Size::from_width_height(2, 1),
        vec![Some(Tile::Blank), Some(Tile::Sticks1)],
    )
    .unwrap();
    m.swap(Position::from_xy(0, 0), Position::from_xy(1, 0));
    assert_eq!(m.get(Position::from_xy(0, 0)), Some(&Some(Tile::Sticks1)));
    assert_eq!(m.get(Position::from_xy(1, 0)), Some(&Some(Tile::Blank)));
    // out-of-range swaps change nothing
    m.swap(Position::from_xy(0, 0), Position::from_xy(9, 9));
    assert_eq!(m.get(Position::from_xy(0, 0)), Some(&Some(Tile::Sticks1)));
}

#[test]
fn add_border_surrounds_the_grid() {
    let mut m = Matrix::new(Size::from_width_height(1, 1), vec![Some(Tile::Blank)]).unwrap();
    m.add_border(None);
    assert_eq!(m.size().width(), 3);
    assert_eq!(m.size().height(), 3);
    let rows = m.rows();
    for y in 0..3 {
        for x in 0..3 {
            if x == 1 && y == 1 {
                assert_eq!(rows[y][x], Some(Tile::Blank));
            } else {
                assert_eq!(rows[y][x], None);
            }
        }
    }
}

#[test]
fn random_positions_stay_inside() {
    for _ in 0..50 {
        let p = Size::from_width_height(1, 1).random_within();
        assert_eq!(p, Position::from_xy(0, 0));
        let q = Size::from_width_height(3, 2).random_within();
        assert!(q.x() < 3 && q.y() < 2);
        let r = Position::random(Position::from_xy(4, 5));
        assert!(r.x() < 4 && r.y() < 5);
    }
}

#[test]
fn catalog_is_distinct_and_stable() {
    let all = Tile::all();
    assert_eq!(all.len(), NUM_TILES);
    let unique: HashSet<Tile> = all.iter().copied().collect();
    assert_eq!(unique.len(), NUM_TILES);
    assert_eq!(all, Tile::all());
    let glyphs: HashSet<char> = all.iter().map(|t| t.as_char()).collect();
    assert_eq!(glyphs.len(), NUM_TILES);
}

#[test]
fn directions_between_positions() {
    let c = Position::from_xy(2, 2);
    assert_eq!(Direction::from_positions(c, Position::from_xy(2, 0)), Direction::Up);
    assert_eq!(Direction::from_positions(c, Position::from_xy(2, 4)), Direction::Down);
    assert_eq!(Direction::from_positions(c, Position::from_xy(0, 2)), Direction::Left);
    assert_eq!(Direction::from_positions(c, Position::from_xy(4, 2)), Direction::Right);
}

#[test]
fn joint_glyphs_ignore_order() {
    assert_eq!(
        Direction::character_for_joint((Direction::Up, Direction::Down)),
        '\u{2502}'
    );
    assert_eq!(
        Direction::character_for_joint((Direction::Down, Direction::Up)),
        '\u{2502}'
    );
    assert_eq!(
        Direction::character_for_joint((Direction::Left, Direction::Right)),
        '\u{2500}'
    );
    assert_eq!(
        Direction::character_for_joint((Direction::Up, Direction::Right)),
        '\u{2570}'
    );
    assert_eq!(
        Direction::character_for_joint((Direction::Right, Direction::Up)),
        '\u{2570}'
    );
    assert_eq!(
        Direction::character_for_joint((Direction::Down, Direction::Left)),
        '\u{256e}'
    );
}

#[test]
fn elapsed_reports_minutes_and_seconds() {
    let clock = Elapsed::new(10_000);
    assert_eq!(clock.minutes_seconds(10_000), (0, 0));
    assert_eq!(clock.minutes_seconds(71_000), (1, 1));
    assert_eq!(clock.minutes_seconds(10_000 + 59 * 1000), (0, 59));
    assert_eq!(clock.minutes_seconds(10_000 + 60 * 1000), (1, 0));
}

#[test]
fn game_carries_a_fresh_board() {
    let mut game = Game::new(42);
    assert_eq!(game.started, 42);
    assert_eq!(game.board.size().width(), 20);
    assert_eq!(game.board.size().height(), 10);
    // a click on the padding ring changes nothing
    game.click(Position::from_xy(0, 0), 43);
    assert_eq!(game.board.confirmed_selection, None);
}

#[test]
fn ui_starts_home_and_ticks_on() {
    let mut ui = Ui::default();
    assert!(matches!(ui.state, GameState::Home));
    assert_eq!(ui.tick(), ControlFlow::Continue);
    ui.start(7);
    match ui.state {
        GameState::Playing(ref game) => assert_eq!(game.started, 7),
        GameState::Home => panic!("game did not start"),
    }
}
