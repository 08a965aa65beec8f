//! Snapshots: the whole game as one value that can be sent, and taken in
//! again at the other end.

use vstd::prelude::*;
use crate::board::BoardView;
use crate::components::Player;
use crate::components::PlayerView;
use crate::components::Polynomio;
use crate::components::PolynomioView;
use crate::components::Position;
use crate::components::SerializeHelper;
use crate::events::Event;
use crate::state::player_ok;
use crate::state::players_view;
use crate::state::polynomios_view;
use crate::state::Mode;
use crate::state::State;
use crate::state::StateView;

verus! {

/// A snapshot of a game. The players may stand in any order.
#[derive(Debug)]
pub struct SavedGame {
    pub positions: Vec<Position>,
    pub polynomios: Vec<Polynomio>,
    pub players: Vec<Player>,
    pub helper: SerializeHelper,
}

/// A snapshot as a mathematical value.
pub struct SavedGameView {
    pub positions: Seq<Position>,
    pub polynomios: Seq<PolynomioView>,
    pub players: Seq<PlayerView>,
    pub map: BoardView,
    pub active_player_id: usize,
    pub mode: Mode,
}

impl View for SavedGame {
    type V = SavedGameView;

    open spec fn view(&self) -> SavedGameView {
        SavedGameView {
            positions: self.positions@,
            polynomios: polynomios_view(self.polynomios@),
            players: players_view(self.players@),
            map: self.helper.map@,
            active_player_id: self.helper.active_player_id,
            mode: self.helper.mode,
        }
    }
}

/// The place in `players`, at or behind `from`, of the first player with the id
/// `id`; -1 where there is none.
pub open spec fn seat_holder(players: Seq<PlayerView>, id: int, from: int) -> int
    decreases players.len() - from,
{
    if from < 0 || from >= players.len() {
        -1
    } else if players[from].id == id {
        from
    } else {
        seat_holder(players, id, from + 1)
    }
}

impl SavedGameView {
    /// For every seat there is a player with the seat's number as id.
    pub open spec fn all_seated(self) -> bool {
        forall|i: int| 0 <= i < self.players.len() ==> #[trigger] seat_holder(self.players, i, 0) >= 0
    }

    /// The players in the order of their ids.
    pub open spec fn seated(self) -> Seq<PlayerView> {
        Seq::new(self.players.len(), |i: int| self.players[seat_holder(self.players, i, 0)])
    }

    /// The game `old` after the snapshot has been taken in: board, pieces,
    /// players, turn and phase are those of the snapshot, the players stand in the
    /// order of their ids, and the log is empty.
    pub open spec fn loaded(self, old: StateView) -> StateView {
        StateView {
            map: self.map,
            players: self.seated(),
            polynomios: self.polynomios,
            positions: self.positions,
            active_player_id: self.active_player_id,
            mode: self.mode,
            event_history: Seq::<Event>::empty(),
            ..old
        }
    }

    /// The snapshot can be taken in: every seat has its player, and the game that
    /// comes of it is consistent.
    pub open spec fn loadable(self, old: StateView) -> bool {
        self.all_seated() && self.loaded(old).wf()
    }
}

proof fn lemma_seat_holder(players: Seq<PlayerView>, id: int, from: int)
    requires
        0 <= from,
    ensures
        seat_holder(players, id, from) >= 0 ==> from <= seat_holder(players, id, from)
            < players.len() && players[seat_holder(players, id, from)].id == id,
        seat_holder(players, id, from) == -1 || seat_holder(players, id, from) >= 0,
        seat_holder(players, id, from) == -1 ==> forall|j: int|
            from <= j < players.len() ==> (#[trigger] players[j]).id != id,
        forall|j: int|
            from <= j < seat_holder(players, id, from) ==> (#[trigger] players[j]).id != id,
    decreases players.len() - from,
{
    if from < players.len() && players[from].id != id {
        lemma_seat_holder(players, id, from + 1);
    }
}

/// A snapshot of a consistent game can be taken in again, and gives the game
/// back as it was, but for its log.
pub proof fn lemma_dump_then_load(s: StateView, old: StateView)
    requires
        s.wf(),
    ensures
        ({
            let saved = SavedGameView {
                positions: s.positions,
                polynomios: s.polynomios,
                players: s.players,
                map: s.map,
                active_player_id: s.active_player_id,
                mode: s.mode,
            };
            saved.loadable(old) && saved.loaded(s) == (StateView {
                event_history: Seq::<Event>::empty(),
                ..s
            })
        }),
{
    let saved = SavedGameView {
        positions: s.positions,
        polynomios: s.polynomios,
        players: s.players,
        map: s.map,
        active_player_id: s.active_player_id,
        mode: s.mode,
    };
    assert forall|i: int| 0 <= i < s.players.len() implies #[trigger] seat_holder(s.players, i, 0)
        == i by {
        lemma_seat_holder(s.players, i, 0);
        assert(player_ok(s.players, s.polynomios, i));
        let j = seat_holder(s.players, i, 0);
        if j >= 0 {
            assert(player_ok(s.players, s.polynomios, j));
        }
    }
    assert(saved.seated() =~= s.players);
}

/// Finds the player with the id `id`.
fn find_player(players: &Vec<Player>, id: usize) -> (r: Option<usize>)
    ensures
        match r {
            Some(j) => j == seat_holder(players_view(players@), id as int, 0),
            None => seat_holder(players_view(players@), id as int, 0) == -1,
        },
{
    let n = players.len();
    let ghost views = players_view(players@);
    let mut j: usize = 0;
    while j < n
        invariant
            j <= n,
            n == players.len(),
            views == players_view(players@),
            seat_holder(views, id as int, 0) == seat_holder(views, id as int, j as int),
        decreases n - j,
    {
        assert(views[j as int] == players[j as int]@);
        if players[j].id >= 0 && players[j].id as usize == id {
            return Some(j);
        }
        j += 1;
    }
    None
}

/// The whole game as a snapshot.
pub fn dump_game(gs: &State) -> (data: SavedGame)
    ensures
        data@ == (SavedGameView {
            positions: gs@.positions,
            polynomios: gs@.polynomios,
            players: gs@.players,
            map: gs@.map,
            active_player_id: gs@.active_player_id,
            mode: gs@.mode,
        }),
{
    let mut polynomios: Vec<Polynomio> = Vec::new();
    let mut i: usize = 0;
    while i < gs.polynomios.len()
        invariant
            i <= gs.polynomios.len(),
            polynomios.len() == i,
            forall|j: int| 0 <= j < i ==> (#[trigger] polynomios[j])@ == gs.polynomios[j]@,
        decreases gs.polynomios.len() - i,
    {
        polynomios.push(gs.polynomios[i].clone());
        i += 1;
    }
    let mut players: Vec<Player> = Vec::new();
    let mut i: usize = 0;
    while i < gs.players.len()
        invariant
            i <= gs.players.len(),
            players.len() == i,
            forall|j: int| 0 <= j < i ==> (#[trigger] players[j])@ == gs.players[j]@,
        decreases gs.players.len() - i,
    {
        players.push(gs.players[i].clone());
        i += 1;
    }
    let data = SavedGame {
        positions: gs.positions.clone(),
        polynomios,
        players,
        helper: SerializeHelper {
            map: gs.map.clone(),
            active_player_id: gs.active_player_id,
            mode: gs.mode,
        },
    };
    proof {
        assert(data@.polynomios =~= gs@.polynomios);
        assert(data@.players =~= gs@.players);
        assert(data@.positions =~= gs@.positions);
    }
    data
}

/// Takes a snapshot in, and says whether it could. The players are put in the
/// order of their ids. A snapshot that would leave the game inconsistent is
/// refused, and the game stays as it was.
pub fn load_game(gs: &mut State, data: SavedGame) -> (ok: bool)
    ensures
        ok == data@.loadable(old(gs)@),
        ok ==> final(gs)@ == data@.loaded(old(gs)@),
        !ok ==> final(gs)@ == old(gs)@,
{
    let n = data.players.len();
    let ghost saved = data@;
    let mut players: Vec<Player> = Vec::new();
    let mut i: usize = 0;
    while i < n
        invariant
            i <= n,
            n == data.players.len(),
            saved == data@,
            players.len() == i,
            forall|j: int| 0 <= j < i ==> #[trigger] seat_holder(saved.players, j, 0) >= 0,
            forall|j: int|
                0 <= j < i ==> (#[trigger] players[j])@ == saved.players[seat_holder(
                    saved.players,
                    j,
                    0,
                )],
        decreases n - i,
    {
        match find_player(&data.players, i) {
            Some(j) => {
                proof {
                    lemma_seat_holder(saved.players, i as int, 0);
                    assert(saved.players[j as int] == data.players[j as int]@);
                }
                players.push(data.players[j].clone());
            },
            None => {
                assert(seat_holder(saved.players, i as int, 0) < 0);
                return false;
            },
        }
        i += 1;
    }
    let candidate = State {
        map: data.helper.map,
        players: players,
        polynomios: data.polynomios,
        positions: data.positions,
        active_player_id: data.helper.active_player_id,
        mode: data.helper.mode,
        winner: gs.winner,
        my_player_id: gs.my_player_id,
        use_local_input: gs.use_local_input,
        event_history: Vec::new(),
        pending_broadcast: gs.pending_broadcast,
    };
    proof {
        assert(candidate@.players =~= saved.seated());
        assert(candidate@.event_history =~= Seq::<Event>::empty());
        assert(candidate@ == saved.loaded(gs@));
    }
    if !candidate.check() {
        return false;
    }
    *gs = candidate;
    true
}

} // verus!
