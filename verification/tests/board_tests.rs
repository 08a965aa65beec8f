use blokus::board::Board;
use blokus::board::EMPTY;
use blokus::board::WALL;
use blokus::components::Player;
use blokus::components::Polynomio;
use blokus::geometry::Point;
use blokus::geometry::Rgb;

fn red() -> Rgb {
    Rgb::new(255, 64, 51)
}

fn piece(cells: &[(i32, i32)]) -> Polynomio {
    Polynomio::new(cells.iter().map(|c| Point::new(c.0, c.1)).collect(), red(), false)
}

fn single() -> Polynomio {
    piece(&[(0, 0)])
}

fn board_with_two_players() -> Board {
    let mut board = Board::new(0, 0, 7, 7);
    let p0 = Player::new(0, vec![0], red(), None);
    let p1 = Player::new(1, vec![1], Rgb::new(1, 2, 3), None);
    board.bind(&p0, 1, 1);
    board.bind(&p1, 5, 5);
    board
}

#[test]
fn new_board_has_wall_ring_and_empty_inside() {
    let board = Board::new(3, 4, 5, 4);
    assert_eq!(board.map.len(), 20);
    assert_eq!((board.x, board.y, board.width, board.height), (3, 4, 5, 4));
    for y in 0..4 {
        for x in 0..5 {
            let expected = if x == 0 || y == 0 || x == 4 || y == 3 { WALL } else { EMPTY };
            assert_eq!(board.get(Point::new(x, y)), expected);
        }
    }
    assert!(board.colors.is_empty());
    assert!(board.starts.is_empty());
    assert!(board.check());
}

#[test]
fn board_of_one_cell_is_all_wall() {
    let board = Board::new(0, 0, 1, 1);
    assert_eq!(board.map, vec![WALL]);
}

#[test]
fn bind_records_colour_and_start_cell() {
    let mut board = Board::new(0, 0, 22, 22);
    let p = Player::new(3, vec![0], red(), None);
    board.bind(&p, 4, 9);
    assert_eq!(board.starts.get(&3), Some(&Point::new(4, 9)));
    assert_eq!(board.colors.get(&3), Some(&red()));
    board.bind_left_top(&p);
    assert_eq!(board.starts.get(&3), Some(&Point::new(1, 1)));
    board.bind_right_top(&p);
    assert_eq!(board.starts.get(&3), Some(&Point::new(20, 1)));
    board.bind_left_bottom(&p);
    assert_eq!(board.starts.get(&3), Some(&Point::new(1, 20)));
    board.bind_right_bottom(&p);
    assert_eq!(board.starts.get(&3), Some(&Point::new(20, 20)));
    assert_eq!(board.starts.len(), 1);
}

#[test]
fn index_and_point_are_inverse() {
    let board = Board::new(0, 0, 5, 4);
    assert_eq!(board.xy_idx(3, 2), 13);
    assert_eq!(board.point_idx(Point::new(4, 3)), 19);
    assert_eq!(board.idx_point(13), Point::new(3, 2));
    for idx in 0..20 {
        assert_eq!(board.point_idx(board.idx_point(idx)), idx);
    }
    assert!(board.xy_isin(0, 0));
    assert!(board.xy_isin(4, 3));
    assert!(!board.xy_isin(5, 3));
    assert!(!board.xy_isin(4, 4));
    assert!(!board.xy_isin(-1, 0));
    assert!(board.point_isin(Point::new(2, 2)));
    assert!(!board.point_isin(Point::new(2, -1)));
}

#[test]
fn start_cell_lets_the_first_piece_lie_without_a_corner_neighbour() {
    let mut board = board_with_two_players();
    assert!(board.try_put(Point::new(1, 1), &single(), 0));
    assert_eq!(board.get(Point::new(1, 1)), 0);
    assert!(!board.try_put(Point::new(1, 1), &single(), 1));
    assert_eq!(board.get(Point::new(1, 1)), 0);
}

#[test]
fn first_piece_off_the_start_cell_is_refused() {
    let mut board = board_with_two_players();
    let before = board.map.clone();
    assert!(!board.try_put(Point::new(2, 2), &single(), 0));
    assert_eq!(board.map, before);
}

#[test]
fn piece_of_an_unbound_player_is_refused() {
    let mut board = board_with_two_players();
    let before = board.map.clone();
    assert!(!board.try_put(Point::new(1, 1), &single(), 7));
    assert_eq!(board.map, before);
}

#[test]
fn corner_touch_allows_and_side_touch_forbids() {
    let mut board = board_with_two_players();
    assert!(board.try_put(Point::new(1, 1), &single(), 0));
    // shares a side with (1, 1)
    assert!(!board.try_put(Point::new(2, 1), &single(), 0));
    assert!(!board.try_put(Point::new(1, 2), &single(), 0));
    // shares a corner with (1, 1)
    assert!(board.try_put(Point::new(2, 2), &single(), 0));
    assert_eq!(board.get(Point::new(2, 2)), 0);
    // shares no cell and no corner
    assert!(!board.try_put(Point::new(4, 4), &single(), 0));
}

#[test]
fn side_touch_forbids_even_with_a_corner_touch_elsewhere() {
    let mut board = board_with_two_players();
    assert!(board.try_put(Point::new(1, 1), &single(), 0));
    assert!(board.try_put(Point::new(2, 2), &single(), 0));
    let before = board.map.clone();
    // (3, 2) shares a side with (2, 2); (2, 3) of the same piece would share a
    // corner with nothing, (3, 1) shares a corner with (2, 2).
    let bar = piece(&[(0, 0), (0, -1)]);
    assert!(!board.try_put(Point::new(3, 2), &bar, 0));
    assert_eq!(board.map, before);
    // (3, 3) shares only a corner with (2, 2)
    assert!(board.try_put(Point::new(3, 3), &single(), 0));
}

#[test]
fn another_players_cells_do_not_count_as_touch() {
    let mut board = board_with_two_players();
    assert!(board.try_put(Point::new(1, 1), &single(), 0));
    assert!(board.try_put(Point::new(5, 5), &single(), 1));
    // next to player 1's cell, at a corner of player 1's cell: no touch for 0
    assert!(!board.try_put(Point::new(4, 4), &single(), 0));
    // player 1 may lie at the corner of its own cell, beside nothing of its own
    assert!(board.try_put(Point::new(4, 4), &single(), 1));
    assert_eq!(board.get(Point::new(4, 4)), 1);
}

#[test]
fn refused_piece_leaves_the_board_unchanged() {
    let mut board = board_with_two_players();
    let before = board.map.clone();
    // covers the start cell but also a wall cell
    let bar = piece(&[(0, 0), (-1, 0)]);
    assert!(!board.try_put(Point::new(1, 1), &bar, 0));
    assert_eq!(board.map, before);
    // reaches outside the grid
    let long = piece(&[(0, 0), (0, -1), (0, -2)]);
    assert!(!board.try_put(Point::new(1, 1), &long, 0));
    assert_eq!(board.map, before);
    // far outside
    assert!(!board.try_put(Point::new(i32::MAX, i32::MIN), &long, 0));
    assert_eq!(board.map, before);
    // a piece without cells touches nothing
    assert!(!board.try_put(Point::new(1, 1), &piece(&[]), 0));
    assert_eq!(board.map, before);
}

#[test]
fn put_stamps_every_cell_of_the_piece() {
    let mut board = board_with_two_players();
    let ell = piece(&[(0, 0), (1, 0), (0, 1), (0, 2)]);
    assert!(board.try_put(Point::new(1, 1), &ell, 0));
    for (x, y) in [(1, 1), (2, 1), (1, 2), (1, 3)] {
        assert_eq!(board.get(Point::new(x, y)), 0);
    }
    assert_eq!(board.map.iter().filter(|c| **c == 0).count(), 4);
}

#[test]
fn remove_after_put_restores_the_board() {
    let mut board = board_with_two_players();
    let before = board.map.clone();
    let ell = piece(&[(0, 0), (1, 0), (0, 1), (0, 2)]);
    assert!(board.try_put(Point::new(1, 1), &ell, 0));
    assert_ne!(board.map, before);
    assert!(board.try_remove(Point::new(1, 1), &ell, 0));
    assert_eq!(board.map, before);
}

#[test]
fn remove_needs_every_cell_to_be_the_players() {
    let mut board = board_with_two_players();
    let ell = piece(&[(0, 0), (1, 0)]);
    assert!(board.try_put(Point::new(1, 1), &single(), 0));
    let before = board.map.clone();
    assert!(!board.try_remove(Point::new(1, 1), &ell, 0));
    assert_eq!(board.map, before);
    assert!(!board.try_remove(Point::new(1, 1), &single(), 1));
    assert_eq!(board.map, before);
    assert!(!board.try_remove(Point::new(-5, 1), &single(), 0));
    assert_eq!(board.map, before);
    assert!(board.try_remove(Point::new(1, 1), &single(), 0));
    assert_eq!(board.get(Point::new(1, 1)), EMPTY);
}

#[test]
fn touch_tests_look_at_the_right_neighbours() {
    let mut board = board_with_two_players();
    assert!(board.try_put(Point::new(1, 1), &single(), 0));
    assert!(board.touch_with_line(Point::new(2, 1), 0));
    assert!(board.touch_with_line(Point::new(1, 2), 0));
    assert!(board.touch_with_line(Point::new(0, 1), 0));
    assert!(board.touch_with_line(Point::new(1, 0), 0));
    assert!(!board.touch_with_line(Point::new(2, 2), 0));
    assert!(!board.touch_with_line(Point::new(1, 1), 0));
    assert!(!board.touch_with_line(Point::new(2, 1), 1));
    assert!(board.touch_with_edge(Point::new(2, 2), 0));
    assert!(board.touch_with_edge(Point::new(0, 0), 0));
    assert!(board.touch_with_edge(Point::new(2, 0), 0));
    assert!(board.touch_with_edge(Point::new(0, 2), 0));
    assert!(!board.touch_with_edge(Point::new(2, 1), 0));
    assert!(!board.touch_with_edge(Point::new(i32::MAX, i32::MAX), 0));
    assert!(!board.touch_with_line(Point::new(i32::MIN, 0), 0));
    // walls are seen as cells of the "player" WALL
    assert!(board.touch_with_line(Point::new(1, 1), WALL));
}

#[test]
fn check_tells_a_broken_board() {
    let mut board = Board::new(0, 0, 4, 4);
    assert!(board.check());
    board.map.pop();
    assert!(!board.check());
    let mut board = Board::new(0, 0, 4, 4);
    board.width = 0;
    assert!(!board.check());
    let mut board = Board::new(0, 0, 4, 4);
    board.x = i32::MAX;
    assert!(!board.check());
    let mut board = Board::new(0, 0, 4, 4);
    board.y = i32::MIN + 1;
    assert!(!board.check());
}

#[test]
fn clone_keeps_cells_and_bindings() {
    let mut board = board_with_two_players();
    assert!(board.try_put(Point::new(1, 1), &single(), 0));
    let copy = board.clone();
    assert_eq!(copy.map, board.map);
    assert_eq!(copy.starts, board.starts);
    assert_eq!(copy.colors, board.colors);
    assert_eq!((copy.x, copy.y, copy.width, copy.height), (0, 0, 7, 7));
}

#[test]
fn wide_positions_reach_the_board_through_large_offsets() {
    let mut board = board_with_two_players();
    let far = vec![Point::new(-2_000_000_000, 1)];
    assert!(board.can_remove_at(2_000_000_001, 0, &far, EMPTY));
    assert!(!board.can_remove_at(2_000_000_001, 0, &far, 0));
    assert!(board.try_put_at(2_000_000_001, 0, &far, 0));
    assert_eq!(board.get(Point::new(1, 1)), 0);
    assert!(!board.try_remove_at(2_000_000_001, 0, &far, 1));
    assert!(board.try_remove_at(2_000_000_001, 0, &far, 0));
    assert_eq!(board.get(Point::new(1, 1)), EMPTY);
}
