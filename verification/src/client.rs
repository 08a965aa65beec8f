//! The client's side of a game: what it sends, what it does with a key before
//! the server has answered, and which answers of the server it takes in.

use vstd::prelude::*;
use rand::Rng;
use crate::input_source::Input;
use crate::input_source::UserInput;
use crate::player::player_input_client;
use crate::save_load_system::load_game;
use crate::save_load_system::SavedGame;
use crate::save_load_system::SavedGameView;
use crate::server::RejectReason;
use crate::server::ServerMessage;
use crate::state::lemma_wf_kept;
use crate::state::Mode;
use crate::state::State;
use crate::state::StateView;

verus! {

/// What a client sends to the server.
#[derive(Debug)]
pub enum ClientMessage {
    /// Asks for the seat `player_id`, or for any free seat.
    Sit { player_id: Option<i32>, name: String },
    /// Asks for a snapshot of the game.
    Sync,
    /// A command, with the token by which the client will know the answer.
    Input { input: Input, token: i32 },
}

/// A message of the client as a mathematical value.
pub enum ClientMessageView {
    Sit { player_id: Option<i32>, name: Seq<char> },
    Sync,
    Input { input: Input, token: i32 },
}

impl View for ClientMessage {
    type V = ClientMessageView;

    open spec fn view(&self) -> ClientMessageView {
        match *self {
            ClientMessage::Sit { player_id, name } => ClientMessageView::Sit {
                player_id,
                name: name@,
            },
            ClientMessage::Sync => ClientMessageView::Sync,
            ClientMessage::Input { input, token } => ClientMessageView::Input { input, token },
        }
    }
}

/// What a client holds: its copy of the game, its seat, the token of the
/// command it sent last, and whether it waits for the answer to that command.
pub struct ClientState {
    pub game: State,
    pub player_id: i32,
    pub player_name: String,
    pub latest_token: i32,
    pub locked: bool,
}

/// A client as a mathematical value.
pub struct ClientStateView {
    pub game: StateView,
    pub player_id: i32,
    pub player_name: Seq<char>,
    pub latest_token: i32,
    pub locked: bool,
}

impl View for ClientState {
    type V = ClientStateView;

    open spec fn view(&self) -> ClientStateView {
        ClientStateView {
            game: self.game@,
            player_id: self.player_id,
            player_name: self.player_name@,
            latest_token: self.latest_token,
            locked: self.locked,
        }
    }
}

/// What became of a message of the server.
#[derive(Clone, Copy, Debug, PartialEq, Eq, Structural)]
pub enum SyncResult {
    /// The snapshot has replaced the client's copy of the game.
    Applied,
    /// The snapshot answers another command of this client than the last one, and
    /// was not taken in.
    Discarded,
    /// The snapshot does not describe a consistent game, and was not taken in.
    Broken,
    /// The server has accepted the client at a seat.
    Seated { player_id: usize },
    /// The server has turned the client down.
    Rejected { reason: RejectReason },
}

impl ClientStateView {
    /// Whether a snapshot that the command `trigger` brought about is taken in:
    /// it is, unless the command came from this client's seat, asked for no
    /// broadcast, and carries another token than this client's last.
    pub open spec fn accepts(self, trigger: UserInput) -> bool {
        trigger.player_id != self.player_id || trigger.input == Input::RequestBroadcast
            || trigger.token == Some(self.latest_token)
    }

    /// Whether a key is sent to the server as a command: `Undo` is not, and a
    /// client that waits for an answer sends nothing.
    pub open spec fn sends(self, input: Option<Input>) -> bool {
        input matches Some(i) && i != Input::Undo && !self.locked
    }

    /// The client after a key, with `token` drawn for the command: a command that
    /// is sent is first tried on the client's own copy of the game, and then the
    /// client waits for the answer.
    pub open spec fn keyed(self, input: Option<Input>, token: i32) -> ClientStateView {
        let sends = self.sends(input);
        let marked = ClientStateView {
            latest_token: if sends {
                token
            } else {
                self.latest_token
            },
            ..self
        };
        let (tried, newmode) = marked.client_step(input);
        ClientStateView {
            game: StateView { mode: newmode, ..tried.game },
            locked: tried.locked || sends,
            ..tried
        }
    }

    /// The client after a snapshot has come: where it is taken in and describes a
    /// consistent game, it replaces the client's copy, and the client waits no
    /// longer.
    pub open spec fn synced(self, data: SavedGameView, trigger: UserInput) -> ClientStateView {
        if self.accepts(trigger) && data.loadable(self.game) {
            ClientStateView { game: data.loaded(self.game), locked: false, ..self }
        } else {
            self
        }
    }
}

/// A token for a command, drawn by `rand::Rng::gen` from the generator of the
/// current thread. Nothing is promised of its value.
#[verifier::external_body]
fn random_token() -> i32 {
    rand::thread_rng().gen()
}

impl ClientState {
    /// A client for the seat `player_id` that has not heard of any game yet: its
    /// copy is a game without players on a board of one cell.
    pub fn new(player_id: i32, player_name: String) -> (c: ClientState)
        ensures
            c@ == (ClientStateView {
                game: StateView::blank(player_id, false),
                player_id,
                player_name: player_name@,
                latest_token: 0,
                locked: false,
            }),
            c@.game.wf(),
    {
        ClientState {
            game: State::empty(player_id),
            player_id,
            player_name,
            latest_token: 0,
            locked: false,
        }
    }

    /// The message that asks for this client's seat.
    pub fn sit_message(&self) -> (m: ClientMessage)
        ensures
            m@ == (ClientMessageView::Sit {
                player_id: Some(self.player_id),
                name: self.player_name@,
            }),
    {
        ClientMessage::Sit { player_id: Some(self.player_id), name: self.player_name.clone() }
    }

    /// Whether a snapshot that the command `trigger` brought about is taken in.
    pub fn accepts(&self, trigger: &UserInput) -> (r: bool)
        ensures
            r == self@.accepts(*trigger),
    {
        trigger.player_id != self.player_id || trigger.input == Input::RequestBroadcast
            || trigger.token == Some(self.latest_token)
    }

    /// Handles the key `input` with the token `token` drawn for it, and gives the
    /// message to send to the server, if there is one.
    pub fn key_input(&mut self, input: Option<Input>, token: i32) -> (message: Option<ClientMessage>)
        requires
            old(self)@.game.wf(),
        ensures
            final(self)@ == old(self)@.keyed(input, token),
            final(self)@.game.wf(),
            match message {
                Some(m) => old(self)@.sends(input) && m@ == (ClientMessageView::Input {
                    input: input->0,
                    token,
                }),
                None => !old(self)@.sends(input),
            },
    {
        let sends = match input {
            Some(i) => i != Input::Undo && !self.locked,
            None => false,
        };
        if sends {
            self.latest_token = token;
        }
        let newmode = player_input_client(self, input);
        let ghost tried = self.game@;
        self.game.change_mode(newmode);
        proof {
            lemma_wf_kept(tried, self.game@);
        }
        if sends {
            self.locked = true;
            Some(ClientMessage::Input { input: input.unwrap(), token })
        } else {
            None
        }
    }

    /// Handles the key `input`, drawing a token for it at random, and gives the
    /// message to send to the server, if there is one.
    pub fn key_pressed(&mut self, input: Option<Input>) -> (message: Option<ClientMessage>)
        requires
            old(self)@.game.wf(),
        ensures
            exists|token: i32| final(self)@ == #[trigger] old(self)@.keyed(input, token) && (
            match message {
                Some(m) => old(self)@.sends(input) && m@ == (ClientMessageView::Input {
                    input: input->0,
                    token,
                }),
                None => !old(self)@.sends(input),
            }),
            final(self)@.game.wf(),
    {
        let token = random_token();
        let message = self.key_input(input, token);
        assert(self@ == old(self)@.keyed(input, token));
        message
    }

    /// Takes in a snapshot that the command `trigger` brought about, or leaves
    /// it, and says which.
    pub fn sync(&mut self, data: SavedGame, trigger: UserInput) -> (r: SyncResult)
        ensures
            final(self)@ == old(self)@.synced(data@, trigger),
            r == (if !old(self)@.accepts(trigger) {
                SyncResult::Discarded
            } else if data@.loadable(old(self)@.game) {
                SyncResult::Applied
            } else {
                SyncResult::Broken
            }),
            r == SyncResult::Applied ==> final(self)@.game.wf(),
    {
        if !self.accepts(&trigger) {
            return SyncResult::Discarded;
        }
        if load_game(&mut self.game, data) {
            self.locked = false;
            SyncResult::Applied
        } else {
            SyncResult::Broken
        }
    }

    /// Handles a message of the server and says what became of it.
    pub fn handle_server_message(&mut self, message: ServerMessage) -> (r: SyncResult)
        ensures
            match message {
                ServerMessage::Accept { player_id } => r == (SyncResult::Seated { player_id })
                    && final(self)@ == old(self)@,
                ServerMessage::Reject { reason } => r == (SyncResult::Rejected { reason })
                    && final(self)@ == old(self)@,
                ServerMessage::Sync { data, trigger } => final(self)@ == old(self)@.synced(
                    data@,
                    trigger,
                ) && r == (if !old(self)@.accepts(trigger) {
                    SyncResult::Discarded
                } else if data@.loadable(old(self)@.game) {
                    SyncResult::Applied
                } else {
                    SyncResult::Broken
                }),
            },
    {
        match message {
            ServerMessage::Accept { player_id } => SyncResult::Seated { player_id },
            ServerMessage::Reject { reason } => SyncResult::Rejected { reason },
            ServerMessage::Sync { data, trigger } => self.sync(data, trigger),
        }
    }
}

} // verus!
