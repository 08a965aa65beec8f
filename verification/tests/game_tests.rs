use blokus::board::EMPTY;
use blokus::events::Event;
use blokus::events::GiveUpEvent;
use blokus::events::PutEvent;
use blokus::events::TurnChangeEvent;
use blokus::geometry::Point;
use blokus::input_source::Input;
use blokus::input_source::InputQueue;
use blokus::input_source::UserInput;
use blokus::player::map_virtual_key_code;
use blokus::player::player_input;
use blokus::player::player_input_put;
use blokus::player::player_input_select;
use blokus::player::select_next;
use blokus::player::InputResult;
use blokus::player::VirtualKeyCode;
use blokus::components::Player;
use blokus::components::Position;
use blokus::geometry::Rgb;
use blokus::state::Mode;
use blokus::state::State;

fn cmd(player_id: i32, input: Input) -> UserInput {
    UserInput { player_id, token: Some(7), input }
}

fn updated(mode: Mode, input: UserInput) -> InputResult {
    InputResult::Updated { trigger: Some(input), newmode: mode }
}

/// Applies a command and writes the phase that the answer names.
fn apply(gs: &mut State, input: UserInput) -> InputResult {
    let r = player_input(gs, input);
    if let InputResult::Updated { newmode, .. } = r {
        gs.change_mode(newmode);
    }
    r
}

/// The small game in the phase `Select`.
fn small_game() -> State {
    let mut gs = State::new("debug", 0, true);
    assert!(gs.check());
    gs.change_mode(Mode::Select);
    gs
}

/// Lets the player whose turn it is lay its single cell on its start cell.
fn lay_single(gs: &mut State, seat: i32, moves: &[Input]) {
    assert_eq!(apply(gs, cmd(seat, Input::Right)), updated(Mode::Select, cmd(seat, Input::Right)));
    assert_eq!(apply(gs, cmd(seat, Input::Enter)), updated(Mode::Put, cmd(seat, Input::Enter)));
    for m in moves {
        assert_eq!(apply(gs, cmd(seat, *m)), updated(Mode::Put, cmd(seat, *m)));
    }
    assert_eq!(apply(gs, cmd(seat, Input::Enter)), updated(Mode::Select, cmd(seat, Input::Enter)));
}

const TO_START_0: [Input; 4] = [Input::Left, Input::Left, Input::Up, Input::Up];
const TO_START_1: [Input; 4] = [Input::Right, Input::Right, Input::Down, Input::Down];

#[test]
fn select_next_visits_free_pieces_in_cyclic_order() {
    let mut p = Player::new(0, vec![0, 1, 2, 3, 4, 5], Rgb::new(0, 0, 0), None);
    p.fixed = vec![true, false, true, true, false, false];
    p.select = 2;
    let mut seen = Vec::new();
    for _ in 0..7 {
        assert!(select_next(&mut p, false));
        seen.push(p.select);
    }
    assert_eq!(seen, vec![4, 5, 1, 4, 5, 1, 4]);
    let mut seen = Vec::new();
    for _ in 0..4 {
        assert!(select_next(&mut p, true));
        seen.push(p.select);
    }
    assert_eq!(seen, vec![1, 5, 4, 1]);
}

#[test]
fn select_next_on_the_only_free_piece_stays() {
    let mut p = Player::new(0, vec![0, 1, 2], Rgb::new(0, 0, 0), None);
    p.fixed = vec![true, false, true];
    p.select = 1;
    assert!(select_next(&mut p, false));
    assert_eq!(p.select, 1);
    assert!(select_next(&mut p, true));
    assert_eq!(p.select, 1);
}

#[test]
fn select_next_finds_nothing_when_all_are_laid() {
    let mut p = Player::new(0, vec![0, 1, 2], Rgb::new(0, 0, 0), None);
    p.fixed = vec![true, true, true];
    p.select = 1;
    assert!(!select_next(&mut p, false));
    assert_eq!(p.select, 2);
    assert!(!select_next(&mut p, true));
    assert_eq!(p.select, 1);
    p.fixed[0] = false;
    assert!(select_next(&mut p, false));
    assert_eq!(p.select, 0);
}

#[test]
fn keys_stand_for_commands() {
    let pairs = [
        (VirtualKeyCode::R, Some(Input::RotateRight)),
        (VirtualKeyCode::E, Some(Input::RotateLeft)),
        (VirtualKeyCode::F, Some(Input::Flip)),
        (VirtualKeyCode::Up, Some(Input::Up)),
        (VirtualKeyCode::Down, Some(Input::Down)),
        (VirtualKeyCode::Left, Some(Input::Left)),
        (VirtualKeyCode::Right, Some(Input::Right)),
        (VirtualKeyCode::Return, Some(Input::Enter)),
        (VirtualKeyCode::Escape, Some(Input::Cancel)),
        (VirtualKeyCode::Key0, Some(Input::GiveUp)),
        (VirtualKeyCode::Z, Some(Input::Undo)),
        (VirtualKeyCode::Other, None),
    ];
    for (key, input) in pairs {
        assert_eq!(map_virtual_key_code(Some(key)), input);
    }
    assert_eq!(map_virtual_key_code(None), None);
}

#[test]
fn initialize_goes_to_select_on_any_command() {
    let mut gs = State::new("debug", 0, true);
    assert_eq!(gs.mode, Mode::Initialize);
    let r = player_input(&mut gs, cmd(1, Input::Flip));
    assert_eq!(r, InputResult::Updated { trigger: None, newmode: Mode::Select });
    assert_eq!(gs.mode, Mode::Initialize);
}

#[test]
fn request_broadcast_changes_nothing_and_counts_as_update() {
    for mode in [Mode::Initialize, Mode::Select, Mode::Put, Mode::Finish] {
        let mut gs = small_game();
        gs.change_mode(mode);
        let c = cmd(1, Input::RequestBroadcast);
        assert_eq!(player_input(&mut gs, c), updated(mode, c));
        assert_eq!(gs.mode, mode);
        assert_eq!(gs.active_player_id, 0);
        assert_eq!(gs.event_history.len(), 0);
    }
}

#[test]
fn commands_of_other_seats_are_ignored() {
    let mut gs = small_game();
    for input in [Input::Right, Input::Left, Input::Enter, Input::GiveUp, Input::Cancel] {
        assert_eq!(player_input(&mut gs, cmd(1, input)), InputResult::Noop);
        assert_eq!(player_input(&mut gs, cmd(-1, input)), InputResult::Noop);
    }
    assert_eq!(gs.players[0].select, 0);
    assert!(!gs.players[0].end);
    gs.change_mode(Mode::Put);
    for input in [Input::Right, Input::Enter, Input::RotateLeft, Input::Flip, Input::Cancel] {
        assert_eq!(player_input(&mut gs, cmd(1, input)), InputResult::Noop);
    }
    gs.change_mode(Mode::Finish);
    assert_eq!(player_input(&mut gs, cmd(0, Input::Enter)), InputResult::Noop);
}

#[test]
fn select_moves_cursor_and_enter_centres_the_piece() {
    let mut gs = small_game();
    let c = cmd(0, Input::Right);
    assert_eq!(player_input_select(&mut gs, c), updated(Mode::Select, c));
    assert_eq!(gs.players[0].select, 1);
    let c = cmd(0, Input::Left);
    assert_eq!(player_input_select(&mut gs, c), updated(Mode::Select, c));
    assert_eq!(gs.players[0].select, 0);
    assert_eq!(player_input_select(&mut gs, cmd(0, Input::Flip)), InputResult::Noop);
    assert_eq!(player_input_select(&mut gs, cmd(0, Input::Cancel)), InputResult::Noop);
    let c = cmd(0, Input::Enter);
    assert_eq!(player_input_select(&mut gs, c), updated(Mode::Put, c));
    // the tray of seat 0 holds the pieces 1 and 3; the board of 7 by 7 stands at (27, 20)
    assert_eq!(gs.positions[1], Position { x: 30, y: 23, orig_x: 7, orig_y: 6 });
}

#[test]
fn put_phase_moves_turns_and_cancels() {
    let mut gs = small_game();
    apply(&mut gs, cmd(0, Input::Enter));
    assert_eq!(gs.mode, Mode::Put);
    let first: Vec<Point> = gs.polynomios[1].coods.clone();
    assert_eq!(first, vec![
        Point::new(0, -2), Point::new(0, -1), Point::new(0, 0), Point::new(0, 1), Point::new(1, -2),
    ]);
    let c = cmd(0, Input::RotateRight);
    assert_eq!(player_input_put(&mut gs, c), updated(Mode::Put, c));
    assert_eq!(gs.polynomios[1].coods, vec![
        Point::new(2, 0), Point::new(1, 0), Point::new(0, 0), Point::new(-1, 0), Point::new(2, 1),
    ]);
    let c = cmd(0, Input::RotateLeft);
    assert_eq!(player_input_put(&mut gs, c), updated(Mode::Put, c));
    assert_eq!(gs.polynomios[1].coods, first);
    let c = cmd(0, Input::Flip);
    assert_eq!(player_input_put(&mut gs, c), updated(Mode::Put, c));
    assert_eq!(gs.polynomios[1].coods[4], Point::new(-1, -2));
    for (input, at) in [
        (Input::Up, (30, 22)),
        (Input::Left, (29, 22)),
        (Input::Down, (29, 23)),
        (Input::Right, (30, 23)),
    ] {
        let c = cmd(0, input);
        assert_eq!(player_input_put(&mut gs, c), updated(Mode::Put, c));
        assert_eq!((gs.positions[1].x, gs.positions[1].y), at);
    }
    assert_eq!(player_input_put(&mut gs, cmd(0, Input::GiveUp)), InputResult::Noop);
    assert_eq!(player_input_put(&mut gs, cmd(0, Input::Undo)), InputResult::Noop);
    let c = cmd(0, Input::Cancel);
    assert_eq!(player_input_put(&mut gs, c), updated(Mode::Select, c));
    assert_eq!(gs.polynomios[1].coods, first);
    assert_eq!(gs.positions[1], Position::new(7, 6));
    assert_eq!(gs.event_history.len(), 0);
    assert_eq!(gs.active_player_id, 0);
}

#[test]
fn moves_stop_two_cells_outside_the_board() {
    let mut gs = small_game();
    apply(&mut gs, cmd(0, Input::Enter));
    for _ in 0..20 {
        apply(&mut gs, cmd(0, Input::Left));
        apply(&mut gs, cmd(0, Input::Up));
    }
    assert_eq!((gs.positions[1].x, gs.positions[1].y), (25, 18));
    for _ in 0..20 {
        apply(&mut gs, cmd(0, Input::Right));
        apply(&mut gs, cmd(0, Input::Down));
    }
    assert_eq!((gs.positions[1].x, gs.positions[1].y), (35, 28));
}

#[test]
fn illegal_placement_is_a_no_op() {
    let mut gs = small_game();
    apply(&mut gs, cmd(0, Input::Right));
    apply(&mut gs, cmd(0, Input::Enter));
    let cells = gs.map.map.clone();
    // the middle of the board is no start cell
    assert_eq!(apply(&mut gs, cmd(0, Input::Enter)), InputResult::Noop);
    assert_eq!(gs.mode, Mode::Put);
    assert_eq!(gs.map.map, cells);
    assert_eq!(gs.players[0].fixed, vec![false, false]);
    assert_eq!(gs.active_player_id, 0);
    assert_eq!(gs.event_history.len(), 0);
    assert_eq!((gs.positions[3].x, gs.positions[3].y), (30, 23));
}

#[test]
fn committed_put_marks_advances_and_logs() {
    let mut gs = small_game();
    lay_single(&mut gs, 0, &TO_START_0);
    assert_eq!(gs.map.get(Point::new(1, 1)), 0);
    assert_eq!(gs.players[0].fixed, vec![false, true]);
    assert_eq!(gs.players[0].select, 0);
    assert!(!gs.players[0].end);
    assert_eq!(gs.active_player_id, 1);
    assert_eq!(gs.mode, Mode::Select);
    assert_eq!(gs.event_history, vec![
        Event::Put(PutEvent { player_entity: 0, polynomio_id: 1 }),
        Event::TurnChange(TurnChangeEvent { from: 0 }),
    ]);
}

#[test]
fn undo_after_put_is_its_inverse() {
    let mut gs = small_game();
    let cells = gs.map.map.clone();
    apply(&mut gs, cmd(0, Input::Right));
    let select = gs.players[0].select;
    apply(&mut gs, cmd(0, Input::Enter));
    for m in TO_START_0 {
        apply(&mut gs, cmd(0, m));
    }
    apply(&mut gs, cmd(0, Input::Enter));
    assert_eq!(gs.active_player_id, 1);
    // the turn is with seat 1 now
    assert_eq!(player_input(&mut gs, cmd(0, Input::Undo)), InputResult::Noop);
    assert_eq!(gs.event_history.len(), 2);
    let c = cmd(1, Input::Undo);
    assert_eq!(apply(&mut gs, c), updated(Mode::Select, c));
    assert_eq!(gs.map.map, cells);
    assert_eq!(gs.players[0].fixed, vec![false, false]);
    assert_eq!(gs.players[0].select, select);
    assert!(!gs.players[0].end);
    assert_eq!(gs.active_player_id, 0);
    assert_eq!(gs.event_history.len(), 0);
    assert_eq!(gs.positions[3], Position::new(10, 6));
    assert_eq!(gs.polynomios[3].coods, vec![Point::new(0, 0)]);
    assert!(gs.check());
}

#[test]
fn undo_with_an_empty_log_is_an_update_without_change() {
    let mut gs = small_game();
    let c = cmd(0, Input::Undo);
    assert_eq!(player_input(&mut gs, c), updated(Mode::Select, c));
    assert_eq!(gs.active_player_id, 0);
    assert!(gs.undo());
}

#[test]
fn undo_is_not_heard_while_a_piece_is_laid() {
    let mut gs = small_game();
    lay_single(&mut gs, 0, &TO_START_0);
    apply(&mut gs, cmd(1, Input::Enter));
    assert_eq!(gs.mode, Mode::Put);
    assert_eq!(player_input(&mut gs, cmd(1, Input::Undo)), InputResult::Noop);
    assert_eq!(player_input(&mut gs, cmd(0, Input::Undo)), InputResult::Noop);
    assert_eq!(gs.event_history.len(), 2);
    assert_eq!(gs.map.get(Point::new(1, 1)), 0);
}

#[test]
fn give_up_ends_the_player_and_passes_the_turn() {
    let mut gs = small_game();
    let c = cmd(0, Input::GiveUp);
    assert_eq!(apply(&mut gs, c), updated(Mode::Select, c));
    assert!(gs.players[0].end);
    assert_eq!(gs.active_player_id, 1);
    assert_eq!(gs.event_history, vec![
        Event::GiveUp(GiveUpEvent { player_entity: 0 }),
        Event::TurnChange(TurnChangeEvent { from: 0 }),
    ]);
    // one undo takes back the change of turn and the end
    let c = cmd(1, Input::Undo);
    assert_eq!(apply(&mut gs, c), updated(Mode::Select, c));
    assert!(!gs.players[0].end);
    assert_eq!(gs.active_player_id, 0);
    assert_eq!(gs.event_history.len(), 0);
}

#[test]
fn game_finishes_when_every_player_has_ended() {
    let mut gs = small_game();
    apply(&mut gs, cmd(0, Input::GiveUp));
    assert!(!gs.is_finished());
    let c = cmd(1, Input::GiveUp);
    assert_eq!(apply(&mut gs, c), updated(Mode::Finish, c));
    assert!(gs.is_finished());
    assert_eq!(gs.mode, Mode::Finish);
    // the turn stays where it is when nobody is left
    assert_eq!(gs.active_player_id, 1);
    assert_eq!(player_input(&mut gs, cmd(1, Input::Undo)), InputResult::Noop);
    assert_eq!(player_input(&mut gs, cmd(1, Input::Right)), InputResult::Noop);
}

#[test]
fn turn_skips_players_who_have_ended() {
    let mut gs = State::new("normal", 0, true);
    gs.change_mode(Mode::Select);
    gs.players[1].end = true;
    gs.players[2].end = true;
    gs.next_player();
    assert_eq!(gs.active_player_id, 3);
    gs.next_player();
    assert_eq!(gs.active_player_id, 0);
    gs.players[3].end = true;
    gs.next_player();
    assert_eq!(gs.active_player_id, 0);
    gs.players[0].end = true;
    gs.next_player();
    assert_eq!(gs.active_player_id, 0);
    assert!(gs.is_finished());
}

#[test]
fn laying_the_last_piece_ends_the_player() {
    let mut gs = small_game();
    // seat 0 lays its single cell, seat 1 lays its single cell
    lay_single(&mut gs, 0, &TO_START_0);
    lay_single(&mut gs, 1, &TO_START_1);
    assert_eq!(gs.active_player_id, 0);
    // seat 0 lays its long piece at the corner of its single cell:
    // cells (2, 2), (2, 3), (2, 4), (2, 5), (3, 2)
    apply(&mut gs, cmd(0, Input::Enter));
    assert_eq!(gs.players[0].select, 0);
    for m in [Input::Left, Input::Down] {
        apply(&mut gs, cmd(0, m));
    }
    let c = cmd(0, Input::Enter);
    assert_eq!(apply(&mut gs, c), updated(Mode::Select, c));
    for cell in [(2, 2), (2, 3), (2, 4), (2, 5), (3, 2)] {
        assert_eq!(gs.map.get(Point::new(cell.0, cell.1)), 0);
    }
    assert_eq!(gs.players[0].fixed, vec![true, true]);
    assert!(gs.players[0].end);
    assert_eq!(gs.active_player_id, 1);
    // the end of the player belongs to the piece: the log holds the pair only
    assert_eq!(gs.event_history.len(), 6);
    assert_eq!(gs.event_history[4], Event::Put(PutEvent { player_entity: 0, polynomio_id: 0 }));
    assert_eq!(gs.event_history[5], Event::TurnChange(TurnChangeEvent { from: 0 }));
    // one undo takes the whole action back
    let c = cmd(1, Input::Undo);
    assert_eq!(apply(&mut gs, c), updated(Mode::Select, c));
    assert_eq!(gs.active_player_id, 0);
    for cell in [(2, 2), (2, 3), (2, 4), (2, 5), (3, 2)] {
        assert_eq!(gs.map.get(Point::new(cell.0, cell.1)), EMPTY);
    }
    assert_eq!(gs.map.get(Point::new(1, 1)), 0);
    assert_eq!(gs.players[0].fixed, vec![false, true]);
    assert_eq!(gs.players[0].select, 0);
    assert!(!gs.players[0].end);
    assert_eq!(gs.positions[1], Position::new(7, 6));
    assert_eq!(gs.polynomios[1].coods, gs.polynomios[1].orig_coods);
    assert_eq!(gs.event_history.len(), 4);
    assert_eq!(gs.mode, Mode::Select);
    assert!(gs.check());
}

#[test]
fn last_piece_of_the_last_player_finishes_and_cannot_be_taken_back() {
    let mut gs = small_game();
    lay_single(&mut gs, 0, &TO_START_0);
    apply(&mut gs, cmd(1, Input::GiveUp));
    assert_eq!(gs.active_player_id, 0);
    apply(&mut gs, cmd(0, Input::Enter));
    for m in [Input::Left, Input::Down] {
        apply(&mut gs, cmd(0, m));
    }
    let c = cmd(0, Input::Enter);
    assert_eq!(apply(&mut gs, c), updated(Mode::Finish, c));
    assert!(gs.is_finished());
    assert_eq!(gs.event_history.len(), 6);
    assert_eq!(player_input(&mut gs, cmd(0, Input::Undo)), InputResult::Noop);
    // the log itself can still be taken back in one step
    assert!(gs.undo());
    assert!(!gs.players[0].end);
    assert_eq!(gs.active_player_id, 0);
    assert_eq!(gs.players[0].fixed, vec![false, true]);
    assert_eq!(gs.event_history.len(), 4);
}

#[test]
fn undo_fails_when_the_board_does_not_hold_the_piece() {
    let mut gs = small_game();
    lay_single(&mut gs, 0, &TO_START_0);
    let idx = gs.map.point_idx(Point::new(1, 1));
    gs.map.map[idx] = EMPTY;
    assert!(!gs.can_undo());
    let cells = gs.map.map.clone();
    assert_eq!(player_input(&mut gs, cmd(1, Input::Undo)), InputResult::UndoFailed);
    assert!(!gs.undo());
    assert_eq!(gs.map.map, cells);
    assert_eq!(gs.active_player_id, 1);
    assert_eq!(gs.event_history.len(), 2);
    assert_eq!(gs.players[0].fixed, vec![false, true]);
}

#[test]
fn events_say_whether_they_chain() {
    assert!(!PutEvent { player_entity: 0, polynomio_id: 0 }.should_chain_next());
    assert!(TurnChangeEvent { from: 0 }.should_chain_next());
    assert!(!GiveUpEvent { player_entity: 0 }.should_chain_next());
    assert!(Event::TurnChange(TurnChangeEvent { from: 1 }).should_chain_next());
    assert!(!Event::GiveUp(GiveUpEvent { player_entity: 1 }).should_chain_next());
}

#[test]
fn single_events_are_taken_back() {
    let mut gs = small_game();
    gs.players[1].end = true;
    GiveUpEvent { player_entity: 1 }.undo(&mut gs);
    assert!(!gs.players[1].end);
    TurnChangeEvent { from: 1 }.undo(&mut gs);
    assert_eq!(gs.active_player_id, 1);
    gs.push_event(Event::TurnChange(TurnChangeEvent { from: 0 }));
    assert_eq!(gs.event_history.len(), 1);
    assert!(gs.can_undo());
    assert!(gs.undo());
    assert_eq!(gs.active_player_id, 0);
}

#[test]
fn tick_starts_drains_and_scores() {
    let mut gs = State::new("debug", 0, true);
    let mut queue = InputQueue::new();
    // the first round takes the game out of Initialize and scores it
    assert_eq!(gs.tick(&mut queue, None), InputResult::Noop);
    assert_eq!(gs.mode, Mode::Select);
    assert_eq!(gs.players[0].remaining_tiles, 6);
    assert_eq!(gs.players[1].remaining_tiles, 6);
    assert_eq!(gs.players[0].rank, 2);
    assert_eq!(gs.players[1].rank, 1);
    // commands of the wrong seat are dropped, the first that counts is applied,
    // the rest waits
    queue.push(cmd(1, Input::Right));
    queue.push(cmd(1, Input::Enter));
    queue.push(cmd(0, Input::Right));
    queue.push(cmd(0, Input::Enter));
    assert_eq!(gs.tick(&mut queue, None), updated(Mode::Select, cmd(0, Input::Right)));
    assert_eq!(gs.players[0].select, 1);
    assert_eq!(queue.queue.len(), 1);
    assert_eq!(gs.tick(&mut queue, None), updated(Mode::Put, cmd(0, Input::Enter)));
    assert_eq!(gs.mode, Mode::Put);
    assert_eq!(queue.queue.len(), 0);
    // a key of this machine goes through the queue under the seat in turn
    let key = UserInput { player_id: 0, token: Some(0), input: Input::Left };
    assert_eq!(gs.tick(&mut queue, Some(Input::Left)), updated(Mode::Put, key));
    for m in [Input::Left, Input::Up, Input::Up] {
        gs.tick(&mut queue, Some(m));
    }
    let enter = UserInput { player_id: 0, token: Some(0), input: Input::Enter };
    assert_eq!(gs.tick(&mut queue, Some(Input::Enter)), updated(Mode::Select, enter));
    assert_eq!(gs.mode, Mode::Select);
    assert_eq!(gs.players[0].remaining_tiles, 5);
    assert_eq!(gs.players[0].rank, 1);
    assert_eq!(gs.players[1].rank, 2);
    assert_eq!(gs.winner, 0);
    assert!(gs.polynomios[3].fixed);
    assert!(!gs.polynomios[1].fixed);
    assert_eq!(gs.tick(&mut queue, None), InputResult::Noop);
}

#[test]
fn local_input_comes_from_the_machines_seat_unless_it_serves_all() {
    let mut gs = State::new("duo", 1, false);
    assert_eq!(
        gs.local_input(Input::Flip),
        UserInput { player_id: 1, token: Some(0), input: Input::Flip }
    );
    gs.use_local_input = true;
    assert_eq!(
        gs.local_input(Input::Flip),
        UserInput { player_id: 0, token: Some(0), input: Input::Flip }
    );
}

#[test]
fn drain_stops_at_a_failed_undo() {
    let mut gs = small_game();
    lay_single(&mut gs, 0, &TO_START_0);
    let idx = gs.map.point_idx(Point::new(1, 1));
    gs.map.map[idx] = 1;
    let mut queue = InputQueue::new();
    queue.push(cmd(0, Input::Left));
    queue.push(cmd(0, Input::Undo));
    queue.push(cmd(1, Input::Undo));
    queue.push(cmd(1, Input::Right));
    assert_eq!(gs.drain(&mut queue), InputResult::UndoFailed);
    assert_eq!(queue.queue.len(), 1);
    assert_eq!(gs.players[1].select, 0);
}

#[test]
fn put_event_is_taken_back_on_its_own() {
    let mut gs = small_game();
    lay_single(&mut gs, 0, &TO_START_0);
    let put = PutEvent { player_entity: 0, polynomio_id: 1 };
    assert!(gs.can_undo_put(&put));
    assert!(!gs.can_undo_put(&PutEvent { player_entity: 1, polynomio_id: 1 }));
    gs.players[0].end = true;
    put.undo(&mut gs);
    assert!(!gs.players[0].end);
    assert_eq!(gs.map.get(Point::new(1, 1)), EMPTY);
    assert_eq!(gs.players[0].fixed, vec![false, false]);
    assert_eq!(gs.players[0].select, 1);
    assert_eq!(gs.positions[3], Position::new(10, 6));
    // the turn and the log are another entry's matter
    assert_eq!(gs.active_player_id, 1);
    assert_eq!(gs.event_history.len(), 2);
    Event::TurnChange(TurnChangeEvent { from: 0 }).undo(&mut gs);
    assert_eq!(gs.active_player_id, 0);
}

#[test]
fn undo_from_a_seat_out_of_turn_is_dropped() {
    let mut gs = small_game();
    lay_single(&mut gs, 0, &TO_START_0);
    lay_single(&mut gs, 1, &TO_START_1);
    assert_eq!(gs.active_player_id, 0);
    assert_eq!(player_input(&mut gs, cmd(1, Input::Undo)), InputResult::Noop);
    assert_eq!(gs.event_history.len(), 4);
    let c = cmd(0, Input::Undo);
    assert_eq!(apply(&mut gs, c), updated(Mode::Select, c));
    assert_eq!(gs.active_player_id, 1);
    assert_eq!(gs.map.get(Point::new(5, 5)), EMPTY);
    assert_eq!(gs.map.get(Point::new(1, 1)), 0);
    assert_eq!(gs.event_history.len(), 2);
}
