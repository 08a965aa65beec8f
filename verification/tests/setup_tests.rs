use blokus::board::EMPTY;
use blokus::board::WALL;
use blokus::components::Position;
use blokus::geometry::Point;
use blokus::geometry::Rgb;
use blokus::polynomio_indexing_system::PolynomioIndexingSystem;
use blokus::setup::game_kind;
use blokus::setup::GameKind;
use blokus::state::Mode;
use blokus::state::State;
use blokus::stats_collect_system::StatsCollectSystem;

#[test]
fn names_of_the_kinds_of_game() {
    assert_eq!(game_kind("normal"), Some(GameKind::Normal));
    assert_eq!(game_kind("duo"), Some(GameKind::Duo));
    assert_eq!(game_kind("debug"), Some(GameKind::Debug));
    assert_eq!(game_kind("Normal"), None);
    assert_eq!(game_kind("duo "), None);
    assert_eq!(game_kind(""), None);
}

#[test]
fn game_of_four() {
    let gs = State::new("normal", 2, false);
    assert!(gs.check());
    assert_eq!(gs.mode, Mode::Initialize);
    assert_eq!(gs.active_player_id, 0);
    assert_eq!(gs.my_player_id, 2);
    assert!(!gs.use_local_input);
    assert_eq!(gs.winner, 0);
    assert_eq!(gs.event_history.len(), 0);
    assert_eq!((gs.map.x, gs.map.y, gs.map.width, gs.map.height), (27, 20, 22, 22));
    assert_eq!(gs.map.map.iter().filter(|c| **c == WALL).count(), 84);
    assert_eq!(gs.map.map.iter().filter(|c| **c == EMPTY).count(), 400);
    assert_eq!(gs.map.starts.get(&0), Some(&Point::new(1, 1)));
    assert_eq!(gs.map.starts.get(&1), Some(&Point::new(20, 1)));
    assert_eq!(gs.map.starts.get(&2), Some(&Point::new(20, 20)));
    assert_eq!(gs.map.starts.get(&3), Some(&Point::new(1, 20)));
    assert_eq!(gs.map.colors.get(&3), Some(&Rgb::new(51, 179, 255)));
    assert_eq!(gs.players.len(), 4);
    assert_eq!(gs.polynomios.len(), 168);
    assert_eq!(gs.positions.len(), 168);
    let panels = [(5, 2), (5, 10), (5, 44), (5, 52)];
    for (i, p) in gs.players.iter().enumerate() {
        assert_eq!(p.id, i as i32);
        assert_eq!(p.name, None);
        assert_eq!(p.polynomios.len(), 21);
        assert_eq!(p.polynomios[0], 42 * i + 1);
        assert_eq!(p.polynomios[20], 42 * i + 41);
        assert_eq!(p.fixed, vec![false; 21]);
        assert_eq!(p.select, 0);
        assert!(!p.end);
        assert_eq!(p.position, Position::new(panels[i].0, panels[i].1));
        let total: usize = p.polynomios.iter().map(|k| gs.polynomios[*k].coods.len()).sum();
        assert_eq!(total, 89);
    }
    assert_eq!(gs.players[0].color, Rgb::new(255, 64, 51));
    // every piece lies in the tray behind its shadow
    for k in 0..84 {
        let shadow = &gs.polynomios[2 * k];
        let piece = &gs.polynomios[2 * k + 1];
        assert!(shadow.bg && !piece.bg);
        assert_eq!(shadow.coods, piece.coods);
        assert_eq!(piece.coods, piece.orig_coods);
        assert_eq!(gs.positions[2 * k], gs.positions[2 * k + 1]);
        assert_eq!(piece.color, gs.players[k / 21].color);
        let c = piece.color;
        assert_eq!(shadow.color, Rgb::new(c.r / 5, c.g / 5, c.b / 5));
    }
    // the first, the thirteenth and the last piece of the second player
    assert_eq!(gs.polynomios[43].coods, vec![
        Point::new(0, -2), Point::new(0, -1), Point::new(0, 0), Point::new(0, 1), Point::new(0, 2),
    ]);
    assert_eq!(gs.positions[43], Position::new(5, 14));
    assert_eq!(gs.polynomios[67].coods, vec![
        Point::new(0, 0), Point::new(-1, 0), Point::new(-1, -1), Point::new(0, 1),
    ]);
    assert_eq!(gs.positions[67], Position::new(47, 14));
    assert_eq!(gs.polynomios[83].coods, vec![Point::new(0, 0)]);
    assert_eq!(gs.positions[83], Position::new(67, 14));
    // the square lies one row higher
    assert_eq!(gs.polynomios[33].coods, vec![
        Point::new(0, 0), Point::new(1, 0), Point::new(0, 1), Point::new(1, 1),
    ]);
    assert_eq!(gs.positions[33], Position::new(57, 5));
}

#[test]
fn game_of_two() {
    let gs = State::new("duo", 0, true);
    assert!(gs.check());
    assert!(gs.use_local_input);
    assert_eq!((gs.map.x, gs.map.y, gs.map.width, gs.map.height), (30, 23, 16, 16));
    assert_eq!(gs.map.starts.get(&0), Some(&Point::new(5, 5)));
    assert_eq!(gs.map.starts.get(&1), Some(&Point::new(10, 10)));
    assert_eq!(gs.map.starts.len(), 2);
    assert_eq!(gs.players.len(), 2);
    assert_eq!(gs.polynomios.len(), 84);
    assert_eq!(gs.players[0].position, Position::new(5, 7));
    assert_eq!(gs.players[1].position, Position::new(5, 47));
    assert_eq!(gs.players[1].color, Rgb::new(255, 230, 51));
}

#[test]
fn small_game() {
    let gs = State::new("debug", 0, true);
    assert!(gs.check());
    assert_eq!((gs.map.x, gs.map.y, gs.map.width, gs.map.height), (27, 20, 7, 7));
    assert_eq!(gs.map.starts.get(&0), Some(&Point::new(1, 1)));
    assert_eq!(gs.map.starts.get(&1), Some(&Point::new(5, 5)));
    assert_eq!(gs.players.len(), 2);
    assert_eq!(gs.players[0].polynomios, vec![1, 3]);
    assert_eq!(gs.players[1].polynomios, vec![5, 7]);
    assert_eq!(gs.polynomios.len(), 8);
    assert_eq!(gs.polynomios[1].coods, vec![
        Point::new(0, -2), Point::new(0, -1), Point::new(0, 0), Point::new(0, 1), Point::new(1, -2),
    ]);
    assert_eq!(gs.polynomios[3].coods, vec![Point::new(0, 0)]);
    assert_eq!(gs.positions[1], Position::new(7, 6));
    assert_eq!(gs.positions[3], Position::new(10, 6));
    assert_eq!(gs.positions[5], Position::new(7, 48));
    assert_eq!(gs.positions[7], Position::new(10, 48));
}

#[test]
fn unknown_kind_gives_a_game_without_players() {
    let gs = State::new("solo", 3, true);
    assert!(gs.check());
    assert_eq!(gs.players.len(), 0);
    assert_eq!(gs.polynomios.len(), 0);
    assert_eq!(gs.map.map, vec![WALL]);
    assert_eq!(gs.my_player_id, 3);
    assert!(gs.use_local_input);
    assert_eq!(gs.mode, Mode::Initialize);
    assert!(gs.is_finished());
}

#[test]
fn check_tells_a_broken_game() {
    let fresh = || State::new("debug", 0, true);
    assert!(fresh().check());
    let mut gs = fresh();
    gs.players[0].select = 2;
    assert!(!gs.check());
    let mut gs = fresh();
    gs.players[0].fixed.push(true);
    assert!(!gs.check());
    let mut gs = fresh();
    gs.players[1].id = 0;
    assert!(!gs.check());
    let mut gs = fresh();
    gs.players[1].polynomios[1] = 8;
    assert!(!gs.check());
    let mut gs = fresh();
    gs.positions.pop();
    assert!(!gs.check());
    let mut gs = fresh();
    gs.active_player_id = 2;
    assert!(!gs.check());
    let mut gs = fresh();
    gs.polynomios[0].orig_coods.pop();
    assert!(!gs.check());
    let mut gs = fresh();
    gs.map.height = 6;
    assert!(!gs.check());
    let mut gs = fresh();
    gs.push_event(blokus::events::Event::Put(blokus::events::PutEvent {
        player_entity: 1,
        polynomio_id: 2,
    }));
    assert!(!gs.check());
    let mut gs = fresh();
    gs.push_event(blokus::events::Event::TurnChange(blokus::events::TurnChangeEvent { from: 2 }));
    assert!(!gs.check());
}

#[test]
fn stats_count_free_cells_and_rank() {
    let mut gs = State::new("normal", 0, true);
    let mut stats = StatsCollectSystem { winner: 9 };
    stats.run(&mut gs);
    // all equal: the highest seat leads
    assert_eq!(stats.winner, 3);
    let ranks: Vec<i32> = gs.players.iter().map(|p| p.rank).collect();
    assert_eq!(ranks, vec![4, 3, 2, 1]);
    let left: Vec<i32> = gs.players.iter().map(|p| p.remaining_tiles).collect();
    assert_eq!(left, vec![89, 89, 89, 89]);
    gs.players[1].fixed[0] = true;
    gs.players[1].fixed[20] = true;
    gs.players[2].fixed[12] = true;
    gs.players[0].fixed[20] = true;
    gs.players[0].fixed[19] = true;
    gs.players[0].fixed[15] = true;
    stats.run(&mut gs);
    let left: Vec<i32> = gs.players.iter().map(|p| p.remaining_tiles).collect();
    assert_eq!(left, vec![82, 83, 85, 89]);
    let ranks: Vec<i32> = gs.players.iter().map(|p| p.rank).collect();
    assert_eq!(ranks, vec![1, 2, 3, 4]);
    assert_eq!(stats.winner, 0);
    gs.players[3].fixed[0] = true;
    gs.players[3].fixed[17] = true;
    gs.players[3].fixed[18] = true;
    gs.players[2].fixed[0] = true;
    stats.run(&mut gs);
    let left: Vec<i32> = gs.players.iter().map(|p| p.remaining_tiles).collect();
    assert_eq!(left, vec![82, 83, 80, 78]);
    let ranks: Vec<i32> = gs.players.iter().map(|p| p.rank).collect();
    assert_eq!(ranks, vec![3, 4, 2, 1]);
    assert_eq!(stats.winner, 3);
}

#[test]
fn stats_without_players_keep_the_winner() {
    let mut gs = State::empty(0);
    let mut stats = StatsCollectSystem { winner: 9 };
    stats.run(&mut gs);
    assert_eq!(stats.winner, 9);
}

#[test]
fn indexing_copies_the_flags_to_the_pieces() {
    let mut gs = State::new("debug", 0, true);
    gs.players[0].fixed[1] = true;
    gs.players[1].fixed[0] = true;
    gs.polynomios[1].fixed = true;
    gs.polynomios[0].fixed = true;
    let mut system = PolynomioIndexingSystem {};
    system.run(&mut gs);
    let flags: Vec<bool> = gs.polynomios.iter().map(|p| p.fixed).collect();
    // shadows keep their flag, pieces get their owner's
    assert_eq!(flags, vec![true, false, false, true, false, true, false, false]);
    assert!(gs.check());
}

#[test]
fn indexing_lets_the_later_owner_decide_a_shared_piece() {
    let mut gs = State::new("debug", 0, true);
    gs.players[1].polynomios[0] = 1;
    gs.players[0].fixed[0] = true;
    gs.players[1].fixed[0] = false;
    assert!(gs.check());
    let mut system = PolynomioIndexingSystem {};
    system.run(&mut gs);
    assert!(!gs.polynomios[1].fixed);
    gs.players[1].fixed[0] = true;
    gs.players[0].fixed[0] = false;
    system.run(&mut gs);
    assert!(gs.polynomios[1].fixed);
}

#[test]
fn log_entries_are_checked_against_the_seats() {
    let gs = State::new("debug", 0, true);
    let put = |seat, slot| blokus::events::Event::Put(blokus::events::PutEvent {
        player_entity: seat,
        polynomio_id: slot,
    });
    assert!(gs.check_event(&put(1, 1)));
    assert!(!gs.check_event(&put(1, 2)));
    assert!(!gs.check_event(&put(2, 0)));
    let give_up = |seat| blokus::events::Event::GiveUp(blokus::events::GiveUpEvent { player_entity: seat });
    assert!(gs.check_event(&give_up(1)));
    assert!(!gs.check_event(&give_up(2)));
}
