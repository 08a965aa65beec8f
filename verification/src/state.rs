//! The game as a whole: board, players, pieces, whose turn it is, and the log
//! of what can be undone.

use vstd::prelude::*;
use crate::board::Board;
use crate::board::BoardView;
use crate::components::Player;
use crate::components::PlayerView;
use crate::components::Polynomio;
use crate::components::PolynomioView;
use crate::components::Position;
use crate::board::walled_cells;
use crate::board::EMPTY;
use crate::geometry::Point;
use crate::geometry::Rgb;
use crate::events::Event;
use crate::events::PutEvent;

verus! {

/// The phase of the game.
#[derive(Clone, Copy, Debug, PartialEq, Eq, Structural)]
pub enum Mode {
    Initialize,
    Select,
    Put,
    Finish,
}

/// One game. `players` is ordered by seat, and the player at seat `i` has id
/// `i`. `polynomios` and `positions` list every piece of the game and where it
/// lies; a player's tray refers to pieces by their index in these lists.
pub struct State {
    pub map: Board,
    pub players: Vec<Player>,
    pub polynomios: Vec<Polynomio>,
    pub positions: Vec<Position>,
    pub active_player_id: usize,
    pub mode: Mode,
    pub winner: usize,
    pub my_player_id: i32,
    pub use_local_input: bool,
    pub event_history: Vec<Event>,
    pub pending_broadcast: bool,
}

/// A game as a mathematical value.
pub struct StateView {
    pub map: BoardView,
    pub players: Seq<PlayerView>,
    pub polynomios: Seq<PolynomioView>,
    pub positions: Seq<Position>,
    pub active_player_id: usize,
    pub mode: Mode,
    pub winner: usize,
    pub my_player_id: i32,
    pub use_local_input: bool,
    pub event_history: Seq<Event>,
    pub pending_broadcast: bool,
}

/// The players as mathematical values.
pub open spec fn players_view(players: Seq<Player>) -> Seq<PlayerView> {
    players.map_values(|p: Player| p@)
}

/// The pieces as mathematical values.
pub open spec fn polynomios_view(polynomios: Seq<Polynomio>) -> Seq<PolynomioView> {
    polynomios.map_values(|p: Polynomio| p@)
}

impl View for State {
    type V = StateView;

    open spec fn view(&self) -> StateView {
        StateView {
            map: self.map@,
            players: players_view(self.players@),
            polynomios: polynomios_view(self.polynomios@),
            positions: self.positions@,
            active_player_id: self.active_player_id,
            mode: self.mode,
            winner: self.winner,
            my_player_id: self.my_player_id,
            use_local_input: self.use_local_input,
            event_history: self.event_history@,
            pending_broadcast: self.pending_broadcast,
        }
    }
}

/// The number of cells of the first `n` pieces of a tray.
pub open spec fn tiles(tray: Seq<usize>, pieces: Seq<PolynomioView>, n: int) -> int
    decreases n,
{
    if n <= 0 {
        0
    } else {
        tiles(tray, pieces, n - 1) + pieces[tray[n - 1] as int].coods.len()
    }
}

/// The number of cells of those of the first `n` pieces of a tray that do not lie
/// on the board.
pub open spec fn free_tiles(
    tray: Seq<usize>,
    fixed: Seq<bool>,
    pieces: Seq<PolynomioView>,
    n: int,
) -> int
    decreases n,
{
    if n <= 0 {
        0
    } else if fixed[n - 1] {
        free_tiles(tray, fixed, pieces, n - 1)
    } else {
        free_tiles(tray, fixed, pieces, n - 1) + pieces[tray[n - 1] as int].coods.len()
    }
}

/// The seat that gets the turn after seat `from`: the next one in cyclic order
/// whose player has not ended, looking at no more than `steps` seats.
pub open spec fn seek_turn(players: Seq<PlayerView>, from: int, steps: nat) -> Option<int>
    decreases steps,
{
    if steps == 0 || players.len() == 0 {
        None
    } else {
        let c = (from + 1) % (players.len() as int);
        if !players[c].end {
            Some(c)
        } else {
            seek_turn(players, c, (steps - 1) as nat)
        }
    }
}

/// What must hold of the player at seat `i`: its tray is in order, its id is the
/// seat's number, its pieces exist, and the count of their cells fits in `i32`.
pub open spec fn player_ok(players: Seq<PlayerView>, pieces: Seq<PolynomioView>, i: int) -> bool {
    let p = players[i];
    &&& p.wf()
    &&& p.id == i
    &&& forall|k: int| 0 <= k < p.polynomios.len() ==> (#[trigger] p.polynomios[k]) < pieces.len()
    &&& tiles(p.polynomios, pieces, p.polynomios.len() as int) <= i32::MAX
}

/// The entry names a seat, and a slot of that seat's tray, that exist.
pub open spec fn event_ok(players: Seq<PlayerView>, e: Event) -> bool {
    match e {
        Event::Put(e) => e.player_entity < players.len() && e.polynomio_id
            < players[e.player_entity as int].polynomios.len(),
        Event::TurnChange(e) => e.from < players.len(),
        Event::GiveUp(e) => e.player_entity < players.len(),
    }
}

impl StateView {
    /// A game without players and pieces on a board of one cell, waiting in
    /// `Initialize`.
    pub open spec fn blank(my_player_id: i32, use_local_input: bool) -> StateView {
        StateView {
            map: BoardView {
                cells: walled_cells(1, 1),
                x: 0,
                y: 0,
                width: 1,
                height: 1,
                colors: Map::<i32, Rgb>::empty(),
                starts: Map::<i32, Point>::empty(),
            },
            players: Seq::<PlayerView>::empty(),
            polynomios: Seq::<PolynomioView>::empty(),
            positions: Seq::<Position>::empty(),
            active_player_id: 0,
            mode: Mode::Initialize,
            winner: 0,
            my_player_id,
            use_local_input,
            event_history: Seq::<Event>::empty(),
            pending_broadcast: false,
        }
    }

    /// The game is consistent: every index that it holds points at something, each
    /// seat holds the player with its number, and a player's count of cells fits
    /// in `i32`. A game without players is consistent too.
    pub open spec fn wf(self) -> bool {
        &&& self.map.wf()
        &&& self.positions.len() == self.polynomios.len()
        &&& forall|i: int| 0 <= i < self.polynomios.len() ==> (#[trigger] self.polynomios[i]).wf()
        &&& forall|i: int|
            0 <= i < self.players.len() ==> #[trigger] player_ok(self.players, self.polynomios, i)
        &&& (self.active_player_id < self.players.len() || self.active_player_id == 0)
        &&& forall|i: int|
            0 <= i < self.event_history.len() ==> event_ok(
                self.players,
                #[trigger] self.event_history[i],
            )
    }

    /// There is a player whose turn it is.
    pub open spec fn has_active(self) -> bool {
        self.active_player_id < self.players.len()
    }

    /// The player whose turn it is.
    pub open spec fn active(self) -> PlayerView {
        self.players[self.active_player_id as int]
    }

    /// The index of the piece under the cursor of the player whose turn it is.
    pub open spec fn active_piece(self) -> int {
        self.active().polynomios[self.active().select as int] as int
    }

    /// Every player has ended.
    pub open spec fn is_finished(self) -> bool {
        forall|i: int| 0 <= i < self.players.len() ==> (#[trigger] self.players[i]).end
    }

    /// The game after the turn has passed on. Where every player has ended, the
    /// turn stays where it is.
    pub open spec fn turn_advanced(self) -> StateView {
        match seek_turn(self.players, self.active_player_id as int, self.players.len()) {
            Some(c) => StateView { active_player_id: c as usize, ..self },
            None => self,
        }
    }

    /// The game with `p` at seat `i`.
    pub open spec fn with_player(self, i: int, p: PlayerView) -> StateView {
        StateView { players: self.players.update(i, p), ..self }
    }

    /// The game with `p` as piece `i`.
    pub open spec fn with_polynomio(self, i: int, p: PolynomioView) -> StateView {
        StateView { polynomios: self.polynomios.update(i, p), ..self }
    }

    /// The game with piece `i` at `p`.
    pub open spec fn with_position(self, i: int, p: Position) -> StateView {
        StateView { positions: self.positions.update(i, p), ..self }
    }

    /// The game with `e` as newest entry of its log.
    pub open spec fn pushed(self, e: Event) -> StateView {
        StateView { event_history: self.event_history.push(e), ..self }
    }

    /// The game without the newest entry of its log.
    pub open spec fn popped(self) -> StateView {
        StateView { event_history: self.event_history.drop_last(), ..self }
    }

    /// Where on the board the piece `k` lies: its position, counted from the
    /// board's corner.
    pub open spec fn board_x(self, k: int) -> int {
        self.positions[k].x - self.map.x
    }

    /// The same for the row.
    pub open spec fn board_y(self, k: int) -> int {
        self.positions[k].y - self.map.y
    }

    /// The piece that a `PutEvent` speaks of.
    pub open spec fn piece_of(self, e: PutEvent) -> int {
        self.players[e.player_entity as int].polynomios[e.polynomio_id as int] as int
    }

    /// The piece that `e` recorded lies on the board where it is said to lie, all
    /// of its cells owned by the player who laid it.
    pub open spec fn put_undoable(self, e: PutEvent) -> bool {
        let k = self.piece_of(e);
        self.map.can_remove(
            self.board_x(k),
            self.board_y(k),
            self.polynomios[k].coods,
            self.players[e.player_entity as int].id,
        )
    }

    /// The game after `e` has been taken back: the piece is off the board, back
    /// in its tray in its first shape and place, and under its owner's cursor.
    /// The owner has not ended: where the piece was its last, laying it had ended
    /// the owner, and that is taken back with the piece.
    pub open spec fn put_undone(self, e: PutEvent) -> StateView {
        let k = self.piece_of(e);
        let p = self.players[e.player_entity as int];
        StateView {
            map: self.map.stamped(self.board_x(k), self.board_y(k), self.polynomios[k].coods, EMPTY),
            players: self.players.update(
                e.player_entity as int,
                PlayerView {
                    fixed: p.fixed.update(e.polynomio_id as int, false),
                    select: e.polynomio_id,
                    end: false,
                    ..p
                },
            ),
            positions: self.positions.update(k, self.positions[k].at_origin()),
            polynomios: self.polynomios.update(k, self.polynomios[k].at_origin()),
            ..self
        }
    }

    /// Whether the entry `e` can be taken back. Only a piece that does not lie on
    /// the board as recorded stands in the way.
    pub open spec fn event_undoable(self, e: Event) -> bool {
        match e {
            Event::Put(e) => self.put_undoable(e),
            Event::TurnChange(e) => true,
            Event::GiveUp(e) => true,
        }
    }

    /// The game after the entry `e` has been taken back.
    pub open spec fn event_undone(self, e: Event) -> StateView {
        match e {
            Event::Put(e) => self.put_undone(e),
            Event::TurnChange(e) => StateView { active_player_id: e.from, ..self },
            Event::GiveUp(e) => self.with_player(
                e.player_entity as int,
                PlayerView { end: false, ..self.players[e.player_entity as int] },
            ),
        }
    }

    /// The newest action of the log can be taken back. An entry that records a
    /// change of turn is taken back together with the entry below it.
    pub open spec fn undo_ready(self) -> bool
        decreases self.event_history.len(),
    {
        if self.event_history.len() == 0 {
            true
        } else {
            let e = self.event_history.last();
            let rest = self.popped();
            rest.event_undoable(e) && (e.chains() ==> rest.event_undone(e).undo_ready())
        }
    }

    /// The game after its newest action has been taken back. With an empty log
    /// that is the game itself.
    pub open spec fn undone(self) -> StateView
        decreases self.event_history.len(),
    {
        if self.event_history.len() == 0 {
            self
        } else {
            let e = self.event_history.last();
            let s = self.popped().event_undone(e);
            if e.chains() {
                s.undone()
            } else {
                s
            }
        }
    }
}

/// What `seek_turn` finds: a seat whose player has not ended, or nothing where
/// the players of all the seats looked at have ended.
pub proof fn lemma_seek_turn(players: Seq<PlayerView>, from: int, steps: nat)
    requires
        0 <= from < players.len(),
    ensures
        match seek_turn(players, from, steps) {
            Some(c) => 0 <= c < players.len() && !players[c].end,
            None => forall|j: int|
                1 <= j <= steps ==> players[#[trigger] seat_after(from, players.len() as int, j)].end,
        },
    decreases steps,
{
    let n = players.len() as int;
    if steps > 0 {
        let c = (from + 1) % n;
        assert(seat_after(from, n, 1) == c);
        if players[c].end {
            lemma_seek_turn(players, c, (steps - 1) as nat);
            if seek_turn(players, c, (steps - 1) as nat) is None {
                assert forall|j: int| 1 <= j <= steps implies players[#[trigger] seat_after(
                    from,
                    n,
                    j,
                )].end by {
                    if j > 1 {
                        vstd::arithmetic::div_mod::lemma_add_mod_noop_right(j - 1, from + 1, n);
                        assert(seat_after(c, n, j - 1) == seat_after(from, n, j));
                    }
                }
            }
        }
    }
}

/// The seat `j` places behind the seat `from`, going around `n` seats.
pub open spec fn seat_after(from: int, n: int, j: int) -> int {
    (from + j) % n
}

/// After the turn has passed on, it is with a player who has not ended, unless
/// every player has ended; nothing but the turn has changed.
pub proof fn lemma_turn_advanced(s: StateView)
    requires
        s.wf(),
        s.has_active(),
    ensures
        s.turn_advanced() == (StateView {
            active_player_id: s.turn_advanced().active_player_id,
            ..s
        }),
        s.turn_advanced().has_active(),
        s.turn_advanced().is_finished() || !s.turn_advanced().active().end,
{
    let n = s.players.len() as int;
    let from = s.active_player_id as int;
    lemma_seek_turn(s.players, from, n as nat);
    assert(player_ok(s.players, s.polynomios, n - 1));
    if seek_turn(s.players, from, n as nat) is None {
        assert forall|i: int| 0 <= i < n implies (#[trigger] s.players[i]).end by {
            let j = if i > from {
                i - from
            } else {
                i - from + n
            };
            if i > from {
                vstd::arithmetic::div_mod::lemma_small_mod(i as nat, n as nat);
            } else {
                vstd::arithmetic::div_mod::lemma_fundamental_div_mod_converse(from + j, n, 1, i);
            }
            assert(seat_after(from, n, j) == i);
        }
    }
}

/// A game stays consistent under a change that keeps the number of pieces and
/// their sizes, the trays and the ids of the players, and that leaves in the log
/// only entries that were sound before.
pub proof fn lemma_wf_kept(s1: StateView, s2: StateView)
    requires
        s1.wf(),
        s2.map.wf(),
        s2.positions.len() == s1.positions.len(),
        s2.polynomios.len() == s1.polynomios.len(),
        forall|i: int|
            0 <= i < s2.polynomios.len() ==> (#[trigger] s2.polynomios[i]).wf()
                && s2.polynomios[i].coods.len() == s1.polynomios[i].coods.len(),
        s2.players.len() == s1.players.len(),
        forall|i: int|
            0 <= i < s2.players.len() ==> (#[trigger] s2.players[i]) == s1.players[i] || (
            s2.players[i].wf() && s2.players[i].id == s1.players[i].id && s2.players[i].polynomios
                == s1.players[i].polynomios),
        s2.active_player_id < s2.players.len() || s2.active_player_id == 0,
        forall|i: int|
            0 <= i < s2.event_history.len() ==> event_ok(s1.players, #[trigger] s2.event_history[i]),
    ensures
        s2.wf(),
{
    assert forall|i: int| 0 <= i < s2.players.len() implies #[trigger] player_ok(
        s2.players,
        s2.polynomios,
        i,
    ) by {
        assert(player_ok(s1.players, s1.polynomios, i));
        let tray = s1.players[i].polynomios;
        lemma_tiles_by_size(tray, s1.polynomios, s2.polynomios, tray.len() as int);
    }
    assert forall|i: int| 0 <= i < s2.event_history.len() implies event_ok(
        s2.players,
        #[trigger] s2.event_history[i],
    ) by {
        let e = s2.event_history[i];
        assert(event_ok(s1.players, e));
        match e {
            Event::Put(e) => {
                assert(player_ok(s1.players, s1.polynomios, e.player_entity as int));
                assert(s2.players[e.player_entity as int].polynomios
                    == s1.players[e.player_entity as int].polynomios);
            },
            _ => {},
        }
    }
}

/// The count of a tray's cells depends on the pieces' sizes alone.
pub proof fn lemma_tiles_by_size(
    tray: Seq<usize>,
    pieces1: Seq<PolynomioView>,
    pieces2: Seq<PolynomioView>,
    n: int,
)
    requires
        0 <= n <= tray.len(),
        pieces1.len() == pieces2.len(),
        forall|k: int| 0 <= k < n ==> (#[trigger] tray[k]) < pieces1.len(),
        forall|i: int|
            0 <= i < pieces1.len() ==> (#[trigger] pieces1[i]).coods.len() == pieces2[i].coods.len(),
    ensures
        tiles(tray, pieces1, n) == tiles(tray, pieces2, n),
    decreases n,
{
    if n > 0 {
        lemma_tiles_by_size(tray, pieces1, pieces2, n - 1);
        assert(tray[n - 1] < pieces1.len());
    }
}

/// The cells that a player has left are among the cells of its tray.
pub proof fn lemma_free_tiles_bound(
    tray: Seq<usize>,
    fixed: Seq<bool>,
    pieces: Seq<PolynomioView>,
    n: int,
)
    ensures
        0 <= free_tiles(tray, fixed, pieces, n) <= tiles(tray, pieces, n),
        forall|m: int| 0 <= m <= n ==> tiles(tray, pieces, m) <= tiles(tray, pieces, n),
    decreases n,
{
    if n > 0 {
        lemma_free_tiles_bound(tray, fixed, pieces, n - 1);
    }
}

impl State {
    /// A game without players and pieces on a board of one cell, waiting in
    /// `Initialize`.
    pub fn empty(my_player_id: i32) -> (s: State)
        ensures
            s@ == StateView::blank(my_player_id, false),
            s@.wf(),
            s.players.len() == 0,
            s.polynomios.len() == 0,
            s.positions.len() == 0,
    {
        let s = State {
            map: Board::new(0, 0, 1, 1),
            players: Vec::new(),
            polynomios: Vec::new(),
            positions: Vec::new(),
            active_player_id: 0,
            mode: Mode::Initialize,
            winner: 0,
            my_player_id,
            use_local_input: false,
            event_history: Vec::new(),
            pending_broadcast: false,
        };
        proof {
            assert(s@.players =~= Seq::<PlayerView>::empty());
            assert(s@.polynomios =~= Seq::<PolynomioView>::empty());
            assert(s@.positions =~= Seq::<Position>::empty());
            assert(s@.event_history =~= Seq::<Event>::empty());
        }
        s
    }

    /// Whether the player at seat `i` is in order.
    fn check_player(&self, i: usize) -> (ok: bool)
        requires
            i < self.players.len(),
        ensures
            ok == player_ok(self@.players, self@.polynomios, i as int),
    {
        let player = &self.players[i];
        assert(self@.players[i as int] == player@);
        let n = player.polynomios.len();
        if i > i32::MAX as usize || player.id != i as i32 {
            return false;
        }
        if n == 0 || player.fixed.len() != n || player.select >= n {
            return false;
        }
        let ghost tray = player@.polynomios;
        let ghost pieces = self@.polynomios;
        let mut sum: u64 = 0;
        let mut k: usize = 0;
        while k < n
            invariant
                k <= n,
                n == tray.len(),
                tray == player.polynomios@,
                tray == self@.players[i as int].polynomios,
                pieces == self@.polynomios,
                pieces.len() == self.polynomios.len(),
                forall|j: int| 0 <= j < k ==> (#[trigger] tray[j]) < pieces.len(),
                sum == tiles(tray, pieces, k as int),
                sum <= i32::MAX,
            decreases n - k,
        {
            let piece = player.polynomios[k];
            if piece >= self.polynomios.len() {
                assert(tray[k as int] >= pieces.len());
                return false;
            }
            assert(pieces[piece as int] == self.polynomios[piece as int]@);
            let size = self.polynomios[piece].coods.len();
            proof {
                lemma_free_tiles_bound(tray, Seq::<bool>::empty(), pieces, n as int);
            }
            if size > i32::MAX as usize || sum + size as u64 > i32::MAX as u64 {
                assert(tiles(tray, pieces, k + 1) > i32::MAX);
                return false;
            }
            sum = sum + size as u64;
            k += 1;
        }
        true
    }

    /// Whether the log entry `e` names a seat and a slot that exist.
    pub fn check_event(&self, e: &Event) -> (ok: bool)
        ensures
            ok == event_ok(self@.players, *e),
    {
        match e {
            Event::Put(e) => {
                if e.player_entity < self.players.len() {
                    assert(self@.players[e.player_entity as int] == self.players[e.player_entity as int]@);
                    e.polynomio_id < self.players[e.player_entity].polynomios.len()
                } else {
                    false
                }
            },
            Event::TurnChange(e) => e.from < self.players.len(),
            Event::GiveUp(e) => e.player_entity < self.players.len(),
        }
    }

    /// Whether the game is consistent.
    pub fn check(&self) -> (ok: bool)
        ensures
            ok == self@.wf(),
    {
        if !self.map.check() || self.positions.len() != self.polynomios.len() {
            return false;
        }
        if !(self.active_player_id < self.players.len() || self.active_player_id == 0) {
            return false;
        }
        let mut i: usize = 0;
        while i < self.polynomios.len()
            invariant
                i <= self.polynomios.len(),
                forall|j: int| 0 <= j < i ==> (#[trigger] self@.polynomios[j]).wf(),
            decreases self.polynomios.len() - i,
        {
            assert(self@.polynomios[i as int] == self.polynomios[i as int]@);
            if !self.polynomios[i].check() {
                return false;
            }
            i += 1;
        }
        let mut i: usize = 0;
        while i < self.players.len()
            invariant
                i <= self.players.len(),
                forall|j: int| 0 <= j < i ==> #[trigger] player_ok(self@.players, self@.polynomios, j),
            decreases self.players.len() - i,
        {
            if !self.check_player(i) {
                return false;
            }
            i += 1;
        }
        let mut i: usize = 0;
        while i < self.event_history.len()
            invariant
                i <= self.event_history.len(),
                forall|j: int| 0 <= j < i ==> event_ok(self@.players, #[trigger] self@.event_history[j]),
            decreases self.event_history.len() - i,
        {
            if !self.check_event(&self.event_history[i]) {
                assert(!event_ok(self@.players, self@.event_history[i as int]));
                return false;
            }
            i += 1;
        }
        true
    }

    /// Appends an entry to the log.
    pub fn push_event(&mut self, event: Event)
        ensures
            final(self)@ == old(self)@.pushed(event),
    {
        self.event_history.push(event);
    }

    /// Writes the phase of the game.
    pub fn change_mode(&mut self, m: Mode)
        ensures
            final(self)@ == (StateView { mode: m, ..old(self)@ }),
    {
        self.mode = m;
    }

    /// Passes the turn to the next player who has not ended.
    pub fn next_player(&mut self)
        requires
            old(self)@.wf(),
        ensures
            final(self)@ == old(self)@.turn_advanced(),
            final(self)@.wf(),
            final(self)@.is_finished() || !final(self)@.active().end,
    {
        proof {
            if self@.has_active() {
                lemma_turn_advanced(self@);
            }
        }
        let n = self.players.len();
        if n == 0 {
            return ;
        }
        let mut next_player_id = self.active_player_id;
        let mut i: usize = 0;
        while i < n
            invariant
                i <= n,
                n == self.players.len(),
                self@ == old(self)@,
                self@.wf(),
                n > 0,
                next_player_id < n,
                seek_turn(self@.players, self.active_player_id as int, n as nat) == seek_turn(
                    self@.players,
                    next_player_id as int,
                    (n - i) as nat,
                ),
            decreases n - i,
        {
            next_player_id = (next_player_id + 1) % n;
            assert(self@.players[next_player_id as int] == self.players[next_player_id as int]@);
            if !self.players[next_player_id].end {
                self.active_player_id = next_player_id;
                return ;
            }
            i += 1;
        }
    }

    /// Whether the newest action of the log can be taken back.
    pub fn can_undo(&self) -> (ready: bool)
        requires
            self@.wf(),
        ensures
            ready == self@.undo_ready(),
    {
        let mut i = self.event_history.len();
        let ghost mut cur = self@;
        assert(self@.event_history.take(i as int) =~= self@.event_history);
        while i > 0
            invariant
                i <= self.event_history.len(),
                self@.wf(),
                cur == (StateView {
                    active_player_id: cur.active_player_id,
                    event_history: self@.event_history.take(i as int),
                    ..self@
                }),
                cur.undo_ready() == self@.undo_ready(),
            decreases i,
        {
            let event = self.event_history[i - 1];
            assert(cur.event_history.last() == event);
            assert(event_ok(self@.players, self@.event_history[i - 1]));
            assert(self@.event_history.take(i as int).drop_last() =~= self@.event_history.take(
                i - 1,
            ));
            match event {
                Event::TurnChange(e) => {
                    proof {
                        cur = cur.popped().event_undone(event);
                    }
                    i -= 1;
                },
                Event::Put(e) => {
                    return self.can_undo_put(&e);
                },
                Event::GiveUp(e) => {
                    return true;
                },
            }
        }
        true
    }

    /// Whether the piece that `e` recorded lies on the board as recorded.
    pub fn can_undo_put(&self, e: &PutEvent) -> (ready: bool)
        requires
            self@.wf(),
            event_ok(self@.players, Event::Put(*e)),
        ensures
            ready == self@.put_undoable(*e),
    {
        let seat = e.player_entity;
        proof {
            assert(player_ok(self@.players, self@.polynomios, seat as int));
            assert(self@.players[seat as int] == self.players[seat as int]@);
            assert(self@.players[seat as int].polynomios[e.polynomio_id as int]
                < self.polynomios.len());
        }
        let k = self.players[seat].polynomios[e.polynomio_id];
        assert(self@.polynomios[k as int] == self.polynomios[k as int]@);
        let px: i64 = self.positions[k].x as i64 - self.map.x as i64;
        let py: i64 = self.positions[k].y as i64 - self.map.y as i64;
        self.map.can_remove_at(px, py, &self.polynomios[k].coods, self.players[seat].id)
    }

    /// Takes the newest action of the log back, together with the change of turn
    /// that it brought, and says whether it could. An empty log leaves nothing to
    /// do. Where the board does not hold the piece as the log recorded it, nothing
    /// is changed.
    pub fn undo(&mut self) -> (done: bool)
        requires
            old(self)@.wf(),
        ensures
            done == old(self)@.undo_ready(),
            done ==> final(self)@ == old(self)@.undone(),
            !done ==> final(self)@ == old(self)@,
            final(self)@.wf(),
    {
        if !self.can_undo() {
            return false;
        }
        loop
            invariant
                self@.wf(),
                self@.undo_ready(),
                old(self)@.undo_ready(),
                self@.undone() == old(self)@.undone(),
            decreases self.event_history.len(),
        {
            let ghost before = self@;
            match self.event_history.pop() {
                None => {
                    return true;
                },
                Some(event) => {
                    proof {
                        assert(self@ == before.popped());
                        assert(event == before.event_history.last());
                        assert(event_ok(before.players, before.event_history[before.event_history.len() - 1]));
                        lemma_wf_kept(before, self@);
                    }
                    event.undo(self);
                    if !event.should_chain_next() {
                        return true;
                    }
                },
            }
        }
    }

    /// Whether every player has ended.
    pub fn is_finished(&self) -> (finished: bool)
        ensures
            finished == self@.is_finished(),
    {
        let mut finished = true;
        let n = self.players.len();
        let mut i: usize = 0;
        while i < n
            invariant
                i <= n,
                n == self.players.len(),
                finished == (forall|j: int| 0 <= j < i ==> (#[trigger] self@.players[j]).end),
            decreases n - i,
        {
            assert(self@.players[i as int] == self.players[i as int]@);
            finished = finished && self.players[i].end;
            i += 1;
        }
        finished
    }
}

} // verus!
