//! Seats: which of them are taken, by whom, and how a seat is given out.

use vstd::prelude::*;
use rand::Rng;
use crate::client::ClientMessage;
use crate::input_source::Input;
use crate::input_source::InputQueue;
use crate::input_source::UserInput;
use crate::save_load_system::dump_game;
use crate::save_load_system::SavedGame;
use crate::save_load_system::SavedGameView;
use crate::state::State;

verus! {

/// Why the server turned a client down.
#[derive(Clone, Copy, Debug, PartialEq, Eq, Structural)]
pub enum RejectReason {
    /// The seat asked for is taken.
    Occupied { player_id: i32 },
    /// There is no seat with the number asked for.
    OutOfRange { player_id: i32 },
    /// Every seat is taken.
    NoFreeSlot,
    /// The client has not been given a seat.
    NoSlot,
}

/// What the server sends to a client.
#[derive(Debug)]
pub enum ServerMessage {
    Accept { player_id: usize },
    Reject { reason: RejectReason },
    Sync { data: SavedGame, trigger: UserInput },
}

/// A message of the server as a mathematical value.
pub enum ServerMessageView {
    Accept { player_id: usize },
    Reject { reason: RejectReason },
    Sync { data: SavedGameView, trigger: UserInput },
}

impl View for ServerMessage {
    type V = ServerMessageView;

    open spec fn view(&self) -> ServerMessageView {
        match *self {
            ServerMessage::Accept { player_id } => ServerMessageView::Accept { player_id },
            ServerMessage::Reject { reason } => ServerMessageView::Reject { reason },
            ServerMessage::Sync { data, trigger } => ServerMessageView::Sync {
                data: data@,
                trigger,
            },
        }
    }
}

impl State {
    /// The message that tells every client how the game stands after the
    /// command `trigger`.
    pub fn broadcast(&self, trigger: UserInput) -> (message: ServerMessage)
        ensures
            message@ == (ServerMessageView::Sync {
                data: SavedGameView {
                    positions: self@.positions,
                    polynomios: self@.polynomios,
                    players: self@.players,
                    map: self@.map,
                    active_player_id: self@.active_player_id,
                    mode: self@.mode,
                },
                trigger,
            }),
    {
        ServerMessage::Sync { data: dump_game(self), trigger }
    }
}

/// A seat that is taken: its number and the name of who sits there.
#[derive(Debug)]
pub struct PlayerSlot {
    pub id: usize,
    pub name: String,
}

/// A taken seat as a mathematical value.
pub struct PlayerSlotView {
    pub id: usize,
    pub name: Seq<char>,
}

impl View for PlayerSlot {
    type V = PlayerSlotView;

    open spec fn view(&self) -> PlayerSlotView {
        PlayerSlotView { id: self.id, name: self.name@ }
    }
}

impl Clone for PlayerSlot {
    fn clone(&self) -> (res: Self)
        ensures
            res@ == self@,
    {
        PlayerSlot { id: self.id, name: self.name.clone() }
    }
}

/// Why a seat was not given.
#[derive(Clone, Copy, Debug, PartialEq, Eq, Structural)]
pub enum SlotRequestError {
    IndexOutOfRange,
    AlreadyExists,
}

/// The seats of one game.
pub struct PlayerSlotManager {
    slots: Vec<Option<PlayerSlot>>,
    updated: bool,
}

/// What a seat holds, as a mathematical value.
pub open spec fn slot_view(slot: Option<PlayerSlot>) -> Option<PlayerSlotView> {
    match slot {
        Some(s) => Some(s@),
        None => None,
    }
}

/// How many of the first `n` seats are free.
pub open spec fn free_before(seats: Seq<Option<PlayerSlotView>>, n: int) -> int
    decreases n,
{
    if n <= 0 {
        0
    } else {
        free_before(seats, n - 1) + if seats[n - 1] is None {
            1int
        } else {
            0int
        }
    }
}

/// Seat `i` is free, and `k` free seats stand before it.
pub open spec fn is_nth_free(seats: Seq<Option<PlayerSlotView>>, k: int, i: int) -> bool {
    0 <= i < seats.len() && seats[i] is None && free_before(seats, i) == k
}

/// A number below `n`, drawn by `rand::Rng::gen_range` from the generator of
/// the current thread. The generator promises a value of the range `0..n` and
/// nothing else; it does not return for an empty range, which `n > 0` rules out.
#[verifier::external_body]
fn random_below(n: usize) -> (r: usize)
    requires
        n > 0,
    ensures
        r < n,
{
    rand::thread_rng().gen_range(0..n)
}

/// The seats of a game as a mathematical value.
pub struct PlayerSlotManagerView {
    pub seats: Seq<Option<PlayerSlotView>>,
    pub updated: bool,
}

impl View for PlayerSlotManager {
    type V = PlayerSlotManagerView;

    open spec fn view(&self) -> PlayerSlotManagerView {
        PlayerSlotManagerView { seats: self.seats(), updated: self.is_updated() }
    }
}

impl PlayerSlotManager {
    /// The seats in their order: who was given each, or nothing.
    pub closed spec fn seats(&self) -> Seq<Option<PlayerSlotView>> {
        self.slots@.map_values(|s: Option<PlayerSlot>| slot_view(s))
    }

    /// Whether a seat was given or freed since this was last asked.
    pub closed spec fn is_updated(&self) -> bool {
        self.updated
    }

    /// `n` free seats.
    pub fn new(n: usize) -> (m: Self)
        ensures
            m.seats() == Seq::new(n as nat, |i: int| None::<PlayerSlotView>),
            !m.is_updated(),
    {
        let mut slots: Vec<Option<PlayerSlot>> = Vec::new();
        let mut i: usize = 0;
        while i < n
            invariant
                i <= n,
                slots.len() == i,
                forall|j: int| 0 <= j < i ==> (#[trigger] slots[j]) is None,
            decreases n - i,
        {
            slots.push(None);
            i += 1;
        }
        let m = PlayerSlotManager { slots: slots, updated: false };
        assert(m.seats() =~= Seq::new(n as nat, |i: int| None::<PlayerSlotView>));
        m
    }

    /// Gives the seat `slot.id` to `slot.name`. Refuses with `IndexOutOfRange`
    /// where there is no such seat, with `AlreadyExists` where it is taken.
    pub fn request(&mut self, slot: PlayerSlot) -> (r: Result<(), SlotRequestError>)
        ensures
            r == (if slot.id >= old(self).seats().len() {
                Err::<(), SlotRequestError>(SlotRequestError::IndexOutOfRange)
            } else if old(self).seats()[slot.id as int] is Some {
                Err::<(), SlotRequestError>(SlotRequestError::AlreadyExists)
            } else {
                Ok::<(), SlotRequestError>(())
            }),
            r is Ok ==> final(self).seats() == old(self).seats().update(slot.id as int, Some(slot@))
                && final(self).is_updated(),
            r is Err ==> final(self).seats() == old(self).seats() && final(self).is_updated()
                == old(self).is_updated(),
    {
        let id = slot.id;
        if self.slots.len() <= id {
            return Err(SlotRequestError::IndexOutOfRange);
        }
        if let Some(_) = self.slots[id] {
            return Err(SlotRequestError::AlreadyExists);
        }
        self.slots[id] = Some(slot);
        self.updated = true;
        proof {
            assert(self.seats() =~= old(self).seats().update(id as int, Some(slot@)));
        }
        Ok(())
    }

    /// Who sits at seat `id`.
    pub fn get<'a>(&'a self, id: usize) -> (r: Option<&'a PlayerSlot>)
        requires
            id < self.seats().len(),
        ensures
            match r {
                Some(s) => self.seats()[id as int] == Some(s@),
                None => self.seats()[id as int] is None,
            },
    {
        self.slots[id].as_ref()
    }

    /// Frees seat `id`.
    pub fn remove(&mut self, id: usize)
        requires
            id < old(self).seats().len(),
        ensures
            final(self).seats() == old(self).seats().update(id as int, None),
            final(self).is_updated(),
    {
        self.slots[id] = None;
        self.updated = true;
        proof {
            assert(self.seats() =~= old(self).seats().update(id as int, None));
        }
    }

    /// Says whether a seat was given or freed since this was last asked, and
    /// forgets it.
    pub fn consume_updated(&mut self) -> (updated: bool)
        ensures
            updated == old(self).is_updated(),
            !final(self).is_updated(),
            final(self).seats() == old(self).seats(),
    {
        let updated = self.updated;
        self.updated = false;
        updated
    }

    /// The number of seats.
    pub fn len(&self) -> (n: usize)
        ensures
            n == self.seats().len(),
    {
        self.slots.len()
    }

    /// The number of free seats.
    pub fn free_slots(&self) -> (n: usize)
        ensures
            n == free_before(self.seats(), self.seats().len() as int),
    {
        let len = self.slots.len();
        let mut n: usize = 0;
        let mut i: usize = 0;
        while i < len
            invariant
                i <= len,
                len == self.slots.len(),
                n == free_before(self.seats(), i as int),
                n <= i,
            decreases len - i,
        {
            if self.slots[i].is_none() {
                n += 1;
            }
            i += 1;
        }
        n
    }

    /// The free seat before which `k` free seats stand.
    pub fn nth_free(&self, k: usize) -> (i: usize)
        requires
            k < free_before(self.seats(), self.seats().len() as int),
        ensures
            is_nth_free(self.seats(), k as int, i as int),
    {
        let len = self.slots.len();
        let mut seen: usize = 0;
        let mut i: usize = 0;
        while i < len
            invariant
                i <= len,
                len == self.slots.len(),
                len == self.seats().len(),
                seen == free_before(self.seats(), i as int),
                seen <= k,
                k < free_before(self.seats(), len as int),
            decreases len - i,
        {
            if self.slots[i].is_none() {
                if seen == k {
                    return i;
                }
                seen += 1;
            }
            i += 1;
        }
        proof {
            assert(false);
        }
        0
    }

    /// Gives the free seat before which `pick` free seats stand to `name`, and
    /// says which seat it is. `pick` counts around the free seats where it is
    /// larger than their number. Without a free seat nothing is given.
    pub fn request_free(&mut self, name: String, pick: usize) -> (r: Option<usize>)
        ensures
            match r {
                Some(id) => {
                    let free = free_before(old(self).seats(), old(self).seats().len() as int);
                    &&& free > 0
                    &&& is_nth_free(old(self).seats(), pick as int % free, id as int)
                    &&& final(self).seats() == old(self).seats().update(
                        id as int,
                        Some(PlayerSlotView { id, name: name@ }),
                    )
                    &&& final(self).is_updated()
                },
                None => {
                    &&& free_before(old(self).seats(), old(self).seats().len() as int) == 0
                    &&& final(self).seats() == old(self).seats()
                    &&& final(self).is_updated() == old(self).is_updated()
                },
            },
    {
        let free = self.free_slots();
        if free == 0 {
            return None;
        }
        let id = self.nth_free(pick % free);
        let given = self.request(PlayerSlot { id, name });
        assert(given is Ok);
        Some(id)
    }

    /// A number to pick a free seat by, drawn at random: below the number of free
    /// seats where there is one, 0 otherwise.
    pub fn random_pick(&self) -> (pick: usize)
        ensures
            pick < free_before(self.seats(), self.seats().len() as int) || (pick == 0
                && free_before(self.seats(), self.seats().len() as int) == 0),
    {
        let free = self.free_slots();
        if free == 0 {
            0
        } else {
            random_below(free)
        }
    }
}

/// What the server knows of one connection: the seat it was given, if any.
pub struct Session {
    pub slot: Option<PlayerSlot>,
}

impl Session {
    /// A connection without a seat.
    pub fn new() -> (s: Session)
        ensures
            s.slot is None,
    {
        Session { slot: None }
    }

    /// The command that this connection may put in the queue: it comes from the
    /// connection's seat. A connection without a seat, or with a seat whose number
    /// does not fit the id of a command, may put none.
    pub open spec fn command(self, input: Input, token: Option<i32>) -> Option<UserInput> {
        match self.slot {
            Some(s) => if s.id <= i32::MAX {
                Some(UserInput { player_id: s.id as i32, token, input })
            } else {
                None
            },
            None => None,
        }
    }

    /// Puts a command of this connection in the queue, or answers that the
    /// connection has no seat.
    fn push_input(&self, queue: &mut InputQueue, input: Input, token: Option<i32>) -> (reply:
        Option<ServerMessage>)
        ensures
            match self.command(input, token) {
                Some(c) => reply is None && final(queue)@ == old(queue)@.pushed(c),
                None => reply matches Some(m) && m@ == (ServerMessageView::Reject {
                    reason: RejectReason::NoSlot,
                }) && final(queue)@ == old(queue)@,
            },
    {
        match &self.slot {
            Some(slot) => {
                if slot.id <= i32::MAX as usize {
                    queue.push(UserInput { player_id: slot.id as i32, token, input });
                    None
                } else {
                    Some(ServerMessage::Reject { reason: RejectReason::NoSlot })
                }
            },
            None => Some(ServerMessage::Reject { reason: RejectReason::NoSlot }),
        }
    }

    /// Takes the seat `player_id` for `name`.
    fn sit_at(&mut self, slot_manager: &mut PlayerSlotManager, player_id: i32, name: String) -> (reply:
        ServerMessage)
        ensures
            player_id < 0 || player_id >= old(slot_manager).seats().len() ==> reply@
                == (ServerMessageView::Reject { reason: RejectReason::OutOfRange { player_id } }),
            0 <= player_id < old(slot_manager).seats().len() && old(slot_manager).seats()[player_id as int] is Some ==> reply@ == (ServerMessageView::Reject {
                reason: RejectReason::Occupied { player_id },
            }),
            0 <= player_id < old(slot_manager).seats().len() && old(slot_manager).seats()[player_id as int] is None ==> reply@ == (ServerMessageView::Accept {
                player_id: player_id as usize,
            }),
            reply is Accept ==> final(slot_manager).seats() == old(slot_manager).seats().update(
                player_id as int,
                Some(PlayerSlotView { id: player_id as usize, name: name@ }),
            ) && final(slot_manager).is_updated() && slot_view(final(self).slot) == Some(
                PlayerSlotView { id: player_id as usize, name: name@ },
            ),
            reply is Reject ==> final(slot_manager).seats() == old(slot_manager).seats() && final(slot_manager).is_updated() == old(slot_manager).is_updated() && final(self).slot == old(self).slot,
    {
        if player_id < 0 {
            return ServerMessage::Reject { reason: RejectReason::OutOfRange { player_id } };
        }
        let id = player_id as usize;
        let slot = PlayerSlot { id, name: name.clone() };
        match slot_manager.request(PlayerSlot { id, name }) {
            Err(SlotRequestError::AlreadyExists) => ServerMessage::Reject {
                reason: RejectReason::Occupied { player_id },
            },
            Err(SlotRequestError::IndexOutOfRange) => ServerMessage::Reject {
                reason: RejectReason::OutOfRange { player_id },
            },
            Ok(()) => {
                self.slot = Some(slot);
                ServerMessage::Accept { player_id: id }
            },
        }
    }

    /// Takes a free seat for `name`: the one before which `pick` free seats
    /// stand, counting around.
    fn sit_free(&mut self, slot_manager: &mut PlayerSlotManager, name: String, pick: usize) -> (reply:
        ServerMessage)
        ensures
            match reply@ {
                ServerMessageView::Accept { player_id } => {
                    let free = free_before(
                        old(slot_manager).seats(),
                        old(slot_manager).seats().len() as int,
                    );
                    &&& free > 0
                    &&& is_nth_free(old(slot_manager).seats(), pick as int % free, player_id as int)
                    &&& final(slot_manager).seats() == old(slot_manager).seats().update(
                        player_id as int,
                        Some(PlayerSlotView { id: player_id, name: name@ }),
                    )
                    &&& final(slot_manager).is_updated()
                    &&& slot_view(final(self).slot) == Some(
                        PlayerSlotView { id: player_id, name: name@ },
                    )
                },
                ServerMessageView::Reject { reason } => {
                    &&& reason == RejectReason::NoFreeSlot
                    &&& free_before(old(slot_manager).seats(), old(slot_manager).seats().len() as int)
                        == 0
                    &&& final(slot_manager).seats() == old(slot_manager).seats()
                    &&& final(slot_manager).is_updated() == old(slot_manager).is_updated()
                    &&& final(self).slot == old(self).slot
                },
                ServerMessageView::Sync { data, trigger } => false,
            },
    {
        match slot_manager.request_free(name.clone(), pick) {
            Some(id) => {
                self.slot = Some(PlayerSlot { id, name });
                ServerMessage::Accept { player_id: id }
            },
            None => ServerMessage::Reject { reason: RejectReason::NoFreeSlot },
        }
    }

    /// Handles one message of the client and gives the answer to send, if there
    /// is one.
    ///
    /// `Sit` with a seat takes that seat, `Sit` without one takes the free seat
    /// that `pick` chooses; both are answered with `Accept` or `Reject`, and the
    /// seats change only with `Accept`. `Sync` and `Input` put a command of the
    /// connection's seat in the queue and are not answered; from a connection
    /// without a seat they are answered with `Reject` and change nothing.
    pub fn handle_client_message(
        &mut self,
        slot_manager: &mut PlayerSlotManager,
        queue: &mut InputQueue,
        message: ClientMessage,
        pick: usize,
    ) -> (reply: Option<ServerMessage>)
        ensures
            message is Sit ==> final(queue)@ == old(queue)@ && reply is Some && (reply->0 is Accept
                || reply->0 is Reject),
            !(message is Sit) ==> final(slot_manager).seats() == old(slot_manager).seats() && final(slot_manager).is_updated() == old(slot_manager).is_updated() && final(self).slot == old(self).slot,
            message matches ClientMessage::Sit { player_id: Some(id), name } ==> {
                let seats = old(slot_manager).seats();
                &&& reply->0@ == (if id < 0 || id >= seats.len() {
                    ServerMessageView::Reject { reason: RejectReason::OutOfRange { player_id: id } }
                } else if seats[id as int] is Some {
                    ServerMessageView::Reject { reason: RejectReason::Occupied { player_id: id } }
                } else {
                    ServerMessageView::Accept { player_id: id as usize }
                })
                &&& reply->0 is Accept ==> final(slot_manager).seats() == seats.update(
                    id as int,
                    Some(PlayerSlotView { id: id as usize, name: name@ }),
                ) && slot_view(final(self).slot) == Some(
                    PlayerSlotView { id: id as usize, name: name@ },
                )
            },
            message matches ClientMessage::Sit { player_id: None, name } ==> {
                let seats = old(slot_manager).seats();
                let free = free_before(seats, seats.len() as int);
                &&& free == 0 ==> reply->0@ == (ServerMessageView::Reject {
                    reason: RejectReason::NoFreeSlot,
                })
                &&& free > 0 ==> (reply->0 matches ServerMessage::Accept { player_id } && is_nth_free(
                    seats,
                    pick as int % free,
                    player_id as int,
                ) && final(slot_manager).seats() == seats.update(
                    player_id as int,
                    Some(PlayerSlotView { id: player_id, name: name@ }),
                ) && slot_view(final(self).slot) == Some(
                    PlayerSlotView { id: player_id, name: name@ },
                ))
            },
            message is Sit && reply->0 is Accept ==> final(slot_manager).is_updated(),
            message is Sit && reply->0 is Reject ==> final(slot_manager).seats() == old(slot_manager).seats() && final(slot_manager).is_updated() == old(slot_manager).is_updated()
                && final(self).slot == old(self).slot,
            message is Sync ==> match old(self).command(Input::RequestBroadcast, None) {
                Some(c) => reply is None && final(queue)@ == old(queue)@.pushed(c),
                None => reply matches Some(m) && m@ == (ServerMessageView::Reject {
                    reason: RejectReason::NoSlot,
                }) && final(queue)@ == old(queue)@,
            },
            message matches ClientMessage::Input { input, token } ==> match old(self).command(
                input,
                Some(token),
            ) {
                Some(c) => reply is None && final(queue)@ == old(queue)@.pushed(c),
                None => reply matches Some(m) && m@ == (ServerMessageView::Reject {
                    reason: RejectReason::NoSlot,
                }) && final(queue)@ == old(queue)@,
            },
    {
        match message {
            ClientMessage::Sit { player_id: Some(id), name } => Some(
                self.sit_at(slot_manager, id, name),
            ),
            ClientMessage::Sit { player_id: None, name } => Some(
                self.sit_free(slot_manager, name, pick),
            ),
            ClientMessage::Sync => self.push_input(queue, Input::RequestBroadcast, None),
            ClientMessage::Input { input, token } => self.push_input(queue, input, Some(token)),
        }
    }

    /// Frees the seat of a connection that has ended.
    pub fn stopping(&mut self, slot_manager: &mut PlayerSlotManager)
        ensures
            final(self).slot == old(self).slot,
            match old(self).slot {
                Some(s) => if s.id < old(slot_manager).seats().len() {
                    final(slot_manager).seats() == old(slot_manager).seats().update(s.id as int, None)
                        && final(slot_manager).is_updated()
                } else {
                    final(slot_manager).seats() == old(slot_manager).seats() && final(slot_manager).is_updated() == old(slot_manager).is_updated()
                },
                None => final(slot_manager).seats() == old(slot_manager).seats() && final(slot_manager).is_updated() == old(slot_manager).is_updated(),
            },
    {
        if let Some(slot) = &self.slot {
            if slot.id < slot_manager.len() {
                slot_manager.remove(slot.id);
            }
        }
    }
}

/// Holds of every number but `address`.
pub open spec fn other_than(address: u64) -> spec_fn(u64) -> bool {
    |a: u64| a != address
}

/// The connections that are to get every snapshot, each known by a number.
pub struct WebsocketSessionMonitor {
    pub addresses: Vec<u64>,
}

impl WebsocketSessionMonitor {
    /// No connection.
    pub fn new() -> (m: Self)
        ensures
            m.addresses@ == Seq::<u64>::empty(),
    {
        WebsocketSessionMonitor { addresses: Vec::new() }
    }

    /// Takes up a connection that has begun. One that is known already is not
    /// taken up again.
    pub fn register(&mut self, address: u64)
        ensures
            final(self).addresses@ == (if old(self).addresses@.contains(address) {
                old(self).addresses@
            } else {
                old(self).addresses@.push(address)
            }),
    {
        if !self.knows(address) {
            self.addresses.push(address);
        }
    }

    /// Whether the connection is known.
    pub fn knows(&self, address: u64) -> (r: bool)
        ensures
            r == self.addresses@.contains(address),
    {
        let mut i: usize = 0;
        while i < self.addresses.len()
            invariant
                i <= self.addresses.len(),
                forall|j: int| 0 <= j < i ==> self.addresses[j] != address,
            decreases self.addresses.len() - i,
        {
            if self.addresses[i] == address {
                return true;
            }
            i += 1;
        }
        false
    }

    /// Drops a connection that has ended: the connections that stay are those
    /// with another number, in their order.
    pub fn unregister(&mut self, address: u64)
        ensures
            final(self).addresses@ == old(self).addresses@.filter(other_than(address)),
    {
        let mut kept: Vec<u64> = Vec::new();
        let mut i: usize = 0;
        let ghost all = self.addresses@;
        proof {
            reveal(Seq::filter);
            assert(all.take(0).len() == 0);
        }
        while i < self.addresses.len()
            invariant
                i <= self.addresses.len(),
                all == self.addresses@,
                kept@ == all.take(i as int).filter(other_than(address)),
            decreases self.addresses.len() - i,
        {
            proof {
                assert(all.take(i + 1) =~= all.take(i as int).push(all[i as int]));
                all.take(i as int).lemma_filter_push(all[i as int], other_than(address));
            }
            if self.addresses[i] != address {
                kept.push(self.addresses[i]);
            }
            i += 1;
        }
        proof {
            assert(all.take(all.len() as int) =~= all);
        }
        self.addresses = kept;
    }
}

} // verus!
