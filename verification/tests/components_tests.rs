use blokus::board::Board;
use blokus::components::Player;
use blokus::components::Polynomio;
use blokus::components::Position;
use blokus::geometry::Point;
use blokus::geometry::Rgb;

fn piece(cells: &[(i32, i32)]) -> Polynomio {
    Polynomio::new(cells.iter().map(|c| Point::new(c.0, c.1)).collect(), Rgb::new(9, 8, 7), false)
}

fn cells(p: &Polynomio) -> Vec<(i32, i32)> {
    p.coods.iter().map(|c| (c.x, c.y)).collect()
}

#[test]
fn position_new_translate_reset() {
    let mut p = Position::new(3, -4);
    assert_eq!(p, Position { x: 3, y: -4, orig_x: 3, orig_y: -4 });
    p.translate(2, 10);
    assert_eq!(p, Position { x: 5, y: 6, orig_x: 3, orig_y: -4 });
    assert_eq!(p.to_point(), Point::new(5, 6));
    p.reset();
    assert_eq!(p, Position { x: 3, y: -4, orig_x: 3, orig_y: -4 });
}

#[test]
fn translate_within_stops_two_cells_outside_the_board() {
    let board = Board::new(10, 20, 5, 4);
    let mut p = Position::new(10, 20);
    p.translate_within(-1, 0, &board);
    assert_eq!((p.x, p.y), (9, 20));
    p.translate_within(-1, 0, &board);
    assert_eq!((p.x, p.y), (8, 20));
    p.translate_within(-1, 0, &board);
    assert_eq!((p.x, p.y), (8, 20));
    p.translate_within(0, -2, &board);
    assert_eq!((p.x, p.y), (8, 18));
    p.translate_within(0, -1, &board);
    assert_eq!((p.x, p.y), (8, 18));
    let mut q = Position::new(16, 25);
    q.translate_within(1, 0, &board);
    assert_eq!((q.x, q.y), (16, 25));
    q.translate_within(0, 1, &board);
    assert_eq!((q.x, q.y), (16, 25));
    q.translate_within(-1, -1, &board);
    assert_eq!((q.x, q.y), (15, 24));
    assert_eq!((q.orig_x, q.orig_y), (16, 25));
    let mut far = Position::new(i32::MAX, i32::MIN);
    far.translate_within(1, -1, &board);
    assert_eq!((far.x, far.y), (i32::MAX, i32::MIN));
}

#[test]
fn rotate_right_and_left() {
    let mut p = piece(&[(1, 0), (2, 3), (0, -2)]);
    p.rotate(true);
    assert_eq!(cells(&p), vec![(0, 1), (-3, 2), (2, 0)]);
    p.rotate(false);
    assert_eq!(cells(&p), vec![(1, 0), (2, 3), (0, -2)]);
    p.rotate(false);
    assert_eq!(cells(&p), vec![(0, -1), (3, -2), (-2, 0)]);
    assert_eq!(p.orig_coods, vec![Point::new(1, 0), Point::new(2, 3), Point::new(0, -2)]);
}

#[test]
fn four_rotations_give_the_piece_back() {
    for right in [true, false] {
        let start = [(1, 0), (2, 3), (0, -2), (-7, 5), (i32::MAX, i32::MIN + 1)];
        let mut p = piece(&start);
        for turn in 1..=4 {
            p.rotate(right);
            if turn < 4 {
                assert_ne!(cells(&p), start.to_vec());
            }
        }
        assert_eq!(cells(&p), start.to_vec());
    }
}

#[test]
fn two_flips_give_the_piece_back() {
    let start = [(1, 0), (2, 3), (0, -2), (-7, 5)];
    let mut p = piece(&start);
    p.flip();
    assert_eq!(cells(&p), vec![(-1, 0), (-2, 3), (0, -2), (7, 5)]);
    p.flip();
    assert_eq!(cells(&p), start.to_vec());
}

#[test]
fn reset_gives_the_first_shape() {
    let start = [(1, 0), (2, 3)];
    let mut p = piece(&start);
    p.rotate(true);
    p.flip();
    p.fixed = true;
    p.reset();
    assert_eq!(cells(&p), start.to_vec());
    assert!(p.fixed);
}

#[test]
fn upper_left_is_the_least_of_each_coordinate() {
    assert_eq!(piece(&[(1, 0), (2, -3), (-4, 5)]).upper_left(), Point::new(-4, -3));
    assert_eq!(piece(&[(7, 7)]).upper_left(), Point::new(7, 7));
    assert_eq!(piece(&[(0, 2), (0, 1), (1, 1)]).upper_left(), Point::new(0, 1));
}

#[test]
fn new_piece_is_not_laid() {
    let p = Polynomio::new(vec![Point::new(1, 2)], Rgb::new(1, 2, 3), true);
    assert_eq!(p.coods, vec![Point::new(1, 2)]);
    assert_eq!(p.orig_coods, vec![Point::new(1, 2)]);
    assert!(!p.fixed);
    assert!(p.bg);
    assert_eq!(p.color, Rgb::new(1, 2, 3));
    assert!(p.check());
    let c = p.clone();
    assert_eq!(c.coods, p.coods);
    assert_eq!(c.bg, p.bg);
}

#[test]
fn piece_check_refuses_what_cannot_be_turned() {
    let mut p = piece(&[(0, 0), (i32::MIN, 0)]);
    assert!(!p.check());
    p.coods[1].x = 1;
    assert!(!p.check());
    p.orig_coods[1].x = 1;
    assert!(p.check());
    p.coods.pop();
    assert!(!p.check());
}

#[test]
fn new_player_has_nothing_laid() {
    let p = Player::new(2, vec![5, 7, 9], Rgb::new(1, 2, 3), Some(String::from("ann")));
    assert_eq!(p.id, 2);
    assert_eq!(p.polynomios, vec![5, 7, 9]);
    assert_eq!(p.fixed, vec![false, false, false]);
    assert_eq!(p.select, 0);
    assert!(!p.end);
    assert_eq!(p.rank, 0);
    assert_eq!(p.remaining_tiles, 0);
    assert_eq!(p.name, Some(String::from("ann")));
    assert_eq!(p.position, Position::new(0, 0));
    let c = p.clone();
    assert_eq!(c.polynomios, p.polynomios);
    assert_eq!(c.name, p.name);
}

#[test]
fn player_check_tells_a_broken_tray() {
    let mut p = Player::new(0, vec![3, 4], Rgb::new(0, 0, 0), None);
    assert!(p.check());
    p.select = 2;
    assert!(!p.check());
    p.select = 1;
    p.fixed.pop();
    assert!(!p.check());
    assert!(!Player::new(0, vec![], Rgb::new(0, 0, 0), None).check());
}
