use blokus::broadcast::BroadCastQueue;
use blokus::client::ClientMessage;
use blokus::input_source::Input;
use blokus::input_source::InputQueue;
use blokus::input_source::UserInput;
use blokus::server::PlayerSlot;
use blokus::server::PlayerSlotManager;
use blokus::server::RejectReason;
use blokus::server::ServerMessage;
use blokus::server::Session;
use blokus::server::SlotRequestError;
use blokus::server::WebsocketSessionMonitor;
use blokus::state::Mode;
use blokus::state::State;

fn slot(id: usize, name: &str) -> PlayerSlot {
    PlayerSlot { id, name: String::from(name) }
}

fn name_at(sm: &PlayerSlotManager, id: usize) -> Option<String> {
    sm.get(id).map(|s| s.name.clone())
}

#[test]
fn second_request_for_a_seat_is_refused() {
    let mut sm = PlayerSlotManager::new(4);
    assert_eq!(sm.len(), 4);
    assert_eq!(sm.request(slot(0, "ann")), Ok(()));
    assert_eq!(sm.request(slot(0, "bob")), Err(SlotRequestError::AlreadyExists));
    assert_eq!(name_at(&sm, 0), Some(String::from("ann")));
    assert_eq!(sm.request(slot(4, "cid")), Err(SlotRequestError::IndexOutOfRange));
    assert_eq!(sm.request(slot(usize::MAX, "cid")), Err(SlotRequestError::IndexOutOfRange));
    assert_eq!(sm.request(slot(3, "cid")), Ok(()));
    assert_eq!(sm.get(3).map(|s| s.id), Some(3));
    assert_eq!(name_at(&sm, 1), None);
}

#[test]
fn removed_seat_can_be_taken_again() {
    let mut sm = PlayerSlotManager::new(2);
    assert_eq!(sm.request(slot(1, "ann")), Ok(()));
    sm.remove(1);
    assert_eq!(name_at(&sm, 1), None);
    assert_eq!(sm.request(slot(1, "bob")), Ok(()));
    assert_eq!(name_at(&sm, 1), Some(String::from("bob")));
}

#[test]
fn updated_flag_is_consumed() {
    let mut sm = PlayerSlotManager::new(2);
    assert!(!sm.consume_updated());
    assert_eq!(sm.request(slot(5, "ann")), Err(SlotRequestError::IndexOutOfRange));
    assert!(!sm.consume_updated());
    assert_eq!(sm.request(slot(1, "ann")), Ok(()));
    assert!(sm.consume_updated());
    assert!(!sm.consume_updated());
    assert_eq!(sm.request(slot(1, "bob")), Err(SlotRequestError::AlreadyExists));
    assert!(!sm.consume_updated());
    sm.remove(1);
    assert!(sm.consume_updated());
    assert!(!sm.consume_updated());
}

#[test]
fn free_seats_are_counted_and_found_in_order() {
    let mut sm = PlayerSlotManager::new(5);
    assert_eq!(sm.free_slots(), 5);
    sm.request(slot(0, "a")).unwrap();
    sm.request(slot(2, "b")).unwrap();
    assert_eq!(sm.free_slots(), 3);
    assert_eq!(sm.nth_free(0), 1);
    assert_eq!(sm.nth_free(1), 3);
    assert_eq!(sm.nth_free(2), 4);
}

#[test]
fn request_free_takes_the_picked_free_seat() {
    let mut sm = PlayerSlotManager::new(4);
    sm.request(slot(1, "a")).unwrap();
    assert_eq!(sm.request_free(String::from("b"), 1), Some(2));
    assert_eq!(name_at(&sm, 2), Some(String::from("b")));
    // two free seats are left: 0 and 3; 5 counts around to the second
    assert_eq!(sm.request_free(String::from("c"), 5), Some(3));
    assert_eq!(sm.request_free(String::from("d"), 0), Some(0));
    assert_eq!(sm.free_slots(), 0);
    sm.consume_updated();
    assert_eq!(sm.request_free(String::from("e"), 0), None);
    assert!(!sm.consume_updated());
}

#[test]
fn random_pick_stays_below_the_number_of_free_seats() {
    let mut sm = PlayerSlotManager::new(3);
    for _ in 0..200 {
        assert!(sm.random_pick() < 3);
    }
    sm.request(slot(0, "a")).unwrap();
    sm.request(slot(2, "b")).unwrap();
    for _ in 0..50 {
        assert_eq!(sm.random_pick(), 0);
    }
    sm.request(slot(1, "c")).unwrap();
    assert_eq!(sm.random_pick(), 0);
    assert_eq!(PlayerSlotManager::new(0).random_pick(), 0);
}

#[test]
fn random_pick_reaches_every_free_seat() {
    let sm = PlayerSlotManager::new(4);
    let mut seen = [false; 4];
    for _ in 0..2000 {
        seen[sm.random_pick()] = true;
    }
    assert_eq!(seen, [true; 4]);
}

fn is_reject(reply: &Option<ServerMessage>, reason: RejectReason) -> bool {
    matches!(reply, Some(ServerMessage::Reject { reason: r }) if *r == reason)
}

fn is_accept(reply: &Option<ServerMessage>, id: usize) -> bool {
    matches!(reply, Some(ServerMessage::Accept { player_id }) if *player_id == id)
}

#[test]
fn session_sits_at_the_seat_it_asks_for() {
    let mut sm = PlayerSlotManager::new(2);
    let mut queue = InputQueue::new();
    let mut a = Session::new();
    let mut b = Session::new();
    let sit = |id: i32, name: &str| ClientMessage::Sit { player_id: Some(id), name: String::from(name) };
    let r = a.handle_client_message(&mut sm, &mut queue, sit(1, "ann"), 0);
    assert!(is_accept(&r, 1));
    assert_eq!(a.slot.as_ref().map(|s| (s.id, s.name.clone())), Some((1, String::from("ann"))));
    let r = b.handle_client_message(&mut sm, &mut queue, sit(1, "bob"), 0);
    assert!(is_reject(&r, RejectReason::Occupied { player_id: 1 }));
    assert!(b.slot.is_none());
    let r = b.handle_client_message(&mut sm, &mut queue, sit(2, "bob"), 0);
    assert!(is_reject(&r, RejectReason::OutOfRange { player_id: 2 }));
    let r = b.handle_client_message(&mut sm, &mut queue, sit(-1, "bob"), 0);
    assert!(is_reject(&r, RejectReason::OutOfRange { player_id: -1 }));
    assert_eq!(name_at(&sm, 1), Some(String::from("ann")));
    assert_eq!(name_at(&sm, 0), None);
    assert_eq!(queue.queue.len(), 0);
}

#[test]
fn session_without_a_wish_gets_a_free_seat_or_none() {
    let mut sm = PlayerSlotManager::new(3);
    let mut queue = InputQueue::new();
    sm.request(slot(0, "zed")).unwrap();
    let sit = |name: &str| ClientMessage::Sit { player_id: None, name: String::from(name) };
    let mut a = Session::new();
    let r = a.handle_client_message(&mut sm, &mut queue, sit("ann"), 1);
    assert!(is_accept(&r, 2));
    assert_eq!(a.slot.as_ref().map(|s| s.id), Some(2));
    let mut b = Session::new();
    let pick = sm.random_pick();
    let r = b.handle_client_message(&mut sm, &mut queue, sit("bob"), pick);
    assert!(is_accept(&r, 1));
    let mut c = Session::new();
    let r = c.handle_client_message(&mut sm, &mut queue, sit("cid"), 0);
    assert!(is_reject(&r, RejectReason::NoFreeSlot));
    assert!(c.slot.is_none());
}

#[test]
fn session_queues_commands_under_its_seat() {
    let mut sm = PlayerSlotManager::new(4);
    let mut queue = InputQueue::new();
    let mut s = Session::new();
    let r = s.handle_client_message(&mut sm, &mut queue, ClientMessage::Sync, 0);
    assert!(is_reject(&r, RejectReason::NoSlot));
    let r = s.handle_client_message(
        &mut sm,
        &mut queue,
        ClientMessage::Input { input: Input::Enter, token: 5 },
        0,
    );
    assert!(is_reject(&r, RejectReason::NoSlot));
    assert_eq!(queue.queue.len(), 0);
    s.handle_client_message(
        &mut sm,
        &mut queue,
        ClientMessage::Sit { player_id: Some(3), name: String::from("ann") },
        0,
    );
    assert!(s.handle_client_message(&mut sm, &mut queue, ClientMessage::Sync, 0).is_none());
    let r = s.handle_client_message(
        &mut sm,
        &mut queue,
        ClientMessage::Input { input: Input::Enter, token: 5 },
        0,
    );
    assert!(r.is_none());
    assert_eq!(
        queue.pop(),
        Some(UserInput { player_id: 3, token: None, input: Input::RequestBroadcast })
    );
    assert_eq!(queue.pop(), Some(UserInput { player_id: 3, token: Some(5), input: Input::Enter }));
    assert_eq!(queue.pop(), None);
}

#[test]
fn stopping_frees_the_seat() {
    let mut sm = PlayerSlotManager::new(2);
    let mut queue = InputQueue::new();
    let mut s = Session::new();
    s.handle_client_message(
        &mut sm,
        &mut queue,
        ClientMessage::Sit { player_id: Some(0), name: String::from("ann") },
        0,
    );
    sm.consume_updated();
    s.stopping(&mut sm);
    assert_eq!(name_at(&sm, 0), None);
    assert!(sm.consume_updated());
    let mut none = Session::new();
    none.stopping(&mut sm);
    assert!(!sm.consume_updated());
    let mut stray = Session { slot: Some(slot(9, "x")) };
    stray.stopping(&mut sm);
    assert!(!sm.consume_updated());
}

#[test]
fn monitor_keeps_each_connection_once() {
    let mut m = WebsocketSessionMonitor::new();
    m.register(4);
    m.register(9);
    m.register(4);
    m.register(1);
    assert_eq!(m.addresses, vec![4, 9, 1]);
    assert!(m.knows(9));
    assert!(!m.knows(2));
    m.unregister(9);
    assert_eq!(m.addresses, vec![4, 1]);
    m.unregister(7);
    assert_eq!(m.addresses, vec![4, 1]);
    m.unregister(4);
    m.unregister(1);
    assert!(m.addresses.is_empty());
}

#[test]
fn broadcast_message_carries_the_game_and_its_trigger() {
    let mut gs = State::new("debug", 0, false);
    gs.change_mode(Mode::Put);
    gs.active_player_id = 1;
    let trigger = UserInput { player_id: 1, token: Some(3), input: Input::Flip };
    match gs.broadcast(trigger) {
        ServerMessage::Sync { data, trigger: t } => {
            assert_eq!(t, trigger);
            assert_eq!(data.helper.mode, Mode::Put);
            assert_eq!(data.helper.active_player_id, 1);
            assert_eq!(data.helper.map.map, gs.map.map);
            assert_eq!(data.players.len(), 2);
            assert_eq!(data.polynomios.len(), 8);
            assert_eq!(data.positions, gs.positions);
        },
        _ => panic!("not a snapshot"),
    }
}

#[test]
fn broadcast_queue_is_first_in_first_out() {
    let mut q = BroadCastQueue::new();
    assert!(q.pop().is_none());
    q.push(ServerMessage::Accept { player_id: 1 });
    q.push(ServerMessage::Reject { reason: RejectReason::NoSlot });
    q.push(ServerMessage::Accept { player_id: 2 });
    assert!(is_accept(&q.pop(), 1));
    assert!(is_reject(&q.pop(), RejectReason::NoSlot));
    assert!(is_accept(&q.pop(), 2));
    assert!(q.pop().is_none());
}

#[test]
fn input_queue_is_first_in_first_out() {
    let mut q = InputQueue::new();
    assert!(!q.broadcast_requested);
    assert_eq!(q.pop(), None);
    let a = UserInput { player_id: 0, token: None, input: Input::Left };
    let b = UserInput { player_id: 1, token: Some(-4), input: Input::Undo };
    q.push(a);
    q.push(b);
    q.push(a);
    assert_eq!(q.pop(), Some(a));
    assert_eq!(q.pop(), Some(b));
    assert_eq!(q.pop(), Some(a));
    assert_eq!(q.pop(), None);
}

#[test]
fn names_follow_the_seats() {
    let mut gs = State::new("normal", 0, false);
    let mut sm = PlayerSlotManager::new(3);
    gs.players[2].name = Some(String::from("old"));
    // nothing was given or freed: names stay
    gs.refresh_names(&mut sm);
    assert_eq!(gs.players[2].name, Some(String::from("old")));
    sm.request(slot(1, "ann")).unwrap();
    gs.refresh_names(&mut sm);
    assert_eq!(gs.players[0].name, None);
    assert_eq!(gs.players[1].name, Some(String::from("ann")));
    assert_eq!(gs.players[2].name, None);
    assert_eq!(gs.players[3].name, None);
    assert!(!sm.consume_updated());
}
