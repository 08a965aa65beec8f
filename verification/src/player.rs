//! What a command does to the game.

use vstd::prelude::*;
use crate::components::Player;
use crate::components::PlayerView;
use crate::components::Position;
use crate::events::Event;
use crate::events::GiveUpEvent;
use crate::events::PutEvent;
use crate::events::TurnChangeEvent;
use crate::input_source::Input;
use crate::input_source::UserInput;
use crate::state::Mode;
use crate::state::State;
use crate::state::StateView;
use crate::client::ClientState;
use crate::client::ClientStateView;
use crate::state::event_ok;
use crate::state::lemma_turn_advanced;
use crate::state::lemma_wf_kept;
use crate::state::player_ok;

verus! {

/// What became of a command. `UndoFailed` says that the log asked to take a
/// piece off the board that does not lie there as recorded; the game is then
/// left as it was.
#[derive(Clone, Copy, Debug, PartialEq, Eq, Structural)]
pub enum InputResult {
    Updated { trigger: Option<UserInput>, newmode: Mode },
    Noop,
    UndoFailed,
}

/// The first index that does not hold `true`, going from `from` in steps of
/// `delta` around the sequence and looking at no more than `steps` indices.
pub open spec fn seek_free(fixed: Seq<bool>, from: int, delta: int, steps: nat) -> Option<int>
    decreases steps,
{
    if steps == 0 {
        None
    } else if !fixed[from] {
        Some(from)
    } else {
        seek_free(fixed, (from + delta) % (fixed.len() as int), delta, (steps - 1) as nat)
    }
}

/// The index that `j` steps of `delta` from `start` lead to, going around `0..n`.
pub open spec fn visit(start: int, delta: int, n: int, j: int) -> int {
    (start + j * delta) % n
}

/// By how much the cursor steps: one forward, or one less than a whole round.
pub open spec fn select_delta(n: int, reverse: bool) -> int {
    if reverse {
        n - 1
    } else {
        1
    }
}

impl PlayerView {
    /// The player after a step of the cursor, and whether the cursor found a piece
    /// that does not lie on the board. The cursor goes to the nearest such piece in
    /// its direction, a whole round at most; where there is none it goes one step.
    pub open spec fn selected_next(self, reverse: bool) -> (PlayerView, bool) {
        let n = self.fixed.len() as int;
        let delta = select_delta(n, reverse);
        let start = (self.select + delta) % n;
        match seek_free(self.fixed, start, delta, n as nat) {
            Some(s) => (PlayerView { select: s as usize, ..self }, true),
            None => (PlayerView { select: start as usize, ..self }, false),
        }
    }
}

/// The answer to a command of `input` that changed the game.
pub open spec fn updated(newmode: Mode, input: UserInput) -> InputResult {
    InputResult::Updated { trigger: Some(input), newmode }
}

impl StateView {
    /// The game after the cursor of the player whose turn it is has stepped.
    pub open spec fn selection_moved(self, reverse: bool) -> StateView {
        self.with_player(self.active_player_id as int, self.active().selected_next(reverse).0)
    }

    /// The game after the piece under the cursor has been taken to the middle of
    /// the board.
    pub open spec fn piece_centered(self) -> StateView {
        let k = self.active_piece();
        self.with_position(
            k,
            Position {
                x: (self.map.width / 2 + self.map.x) as i32,
                y: (self.map.height / 2 + self.map.y) as i32,
                ..self.positions[k]
            },
        )
    }

    /// The game after the player whose turn it is has left it: the player has
    /// ended, the turn has passed on, and the log holds both.
    pub open spec fn given_up(self) -> StateView {
        let seat = self.active_player_id;
        self.with_player(
            seat as int,
            PlayerView { end: true, ..self.active() },
        ).turn_advanced().pushed(Event::GiveUp(GiveUpEvent { player_entity: seat })).pushed(
            Event::TurnChange(TurnChangeEvent { from: seat }),
        )
    }

    /// What a command of the player whose turn it is does while a piece is being
    /// chosen.
    pub open spec fn select_step(self, input: UserInput) -> (StateView, InputResult) {
        match input.input {
            Input::Right => (
                self.selection_moved(false),
                if self.active().selected_next(false).1 {
                    updated(Mode::Select, input)
                } else {
                    InputResult::Noop
                },
            ),
            Input::Left => (
                self.selection_moved(true),
                if self.active().selected_next(true).1 {
                    updated(Mode::Select, input)
                } else {
                    InputResult::Noop
                },
            ),
            Input::Enter => (self.piece_centered(), updated(Mode::Put, input)),
            Input::GiveUp => (self.given_up(), updated(Mode::Select, input)),
            _ => (self, InputResult::Noop),
        }
    }

    /// The game after the piece under the cursor has been turned by a quarter.
    pub open spec fn piece_rotated(self, right: bool) -> StateView {
        let k = self.active_piece();
        self.with_polynomio(k, self.polynomios[k].rotated(right))
    }

    /// The game after the piece under the cursor has been mirrored.
    pub open spec fn piece_flipped(self) -> StateView {
        let k = self.active_piece();
        self.with_polynomio(k, self.polynomios[k].flipped())
    }

    /// The game after the piece under the cursor has been pushed by one step, as
    /// far as it stays in reach of the board.
    pub open spec fn piece_moved(self, delta_x: i32, delta_y: i32) -> StateView {
        let k = self.active_piece();
        self.with_position(k, self.positions[k].moved_within(delta_x, delta_y, self.map))
    }

    /// The game after the piece under the cursor has been put back in the tray, in
    /// its first shape and place.
    pub open spec fn edit_cancelled(self) -> StateView {
        let k = self.active_piece();
        self.with_position(k, self.positions[k].at_origin()).with_polynomio(
            k,
            self.polynomios[k].at_origin(),
        )
    }

    /// The board accepts the piece under the cursor where it lies now.
    pub open spec fn can_put_piece(self) -> bool {
        let k = self.active_piece();
        self.map.can_put(
            self.board_x(k),
            self.board_y(k),
            self.polynomios[k].coods,
            self.active_player_id as i32,
        )
    }

    /// The player whose turn it is after the piece under its cursor has been
    /// laid: the piece counts as laid, the cursor has gone on, and a player with
    /// no piece left has ended.
    pub open spec fn laid_by(self) -> PlayerView {
        let slot = self.active().select;
        let marked = PlayerView {
            fixed: self.active().fixed.update(slot as int, true),
            ..self.active()
        };
        let (moved, found) = marked.selected_next(false);
        PlayerView { end: if found { marked.end } else { true }, ..moved }
    }

    /// The game after the piece under the cursor has been laid on the board: the
    /// board holds it, the turn has passed on, and the log holds the piece and,
    /// above it, the change of turn. A player who has no piece left has ended;
    /// that belongs to the laying of the piece and is taken back with it.
    pub open spec fn piece_put(self) -> StateView {
        let seat = self.active_player_id;
        let slot = self.active().select;
        let k = self.active_piece();
        let after = self.laid_by();
        (StateView {
            map: self.map.stamped(
                self.board_x(k),
                self.board_y(k),
                self.polynomios[k].coods,
                seat as i32,
            ),
            ..self
        }).with_player(seat as int, after).turn_advanced().pushed(
            Event::Put(PutEvent { player_entity: seat, polynomio_id: slot }),
        ).pushed(Event::TurnChange(TurnChangeEvent { from: seat }))
    }

    /// What a command of the player whose turn it is does while a piece is being
    /// laid.
    pub open spec fn put_step(self, input: UserInput) -> (StateView, InputResult) {
        match input.input {
            Input::RotateRight => (self.piece_rotated(true), updated(Mode::Put, input)),
            Input::RotateLeft => (self.piece_rotated(false), updated(Mode::Put, input)),
            Input::Flip => (self.piece_flipped(), updated(Mode::Put, input)),
            Input::Up => (self.piece_moved(0, -1i32), updated(Mode::Put, input)),
            Input::Down => (self.piece_moved(0, 1), updated(Mode::Put, input)),
            Input::Left => (self.piece_moved(-1i32, 0), updated(Mode::Put, input)),
            Input::Right => (self.piece_moved(1, 0), updated(Mode::Put, input)),
            Input::Enter => if self.can_put_piece() {
                (self.piece_put(), updated(Mode::Select, input))
            } else {
                (self, InputResult::Noop)
            },
            Input::Cancel => (self.edit_cancelled(), updated(Mode::Select, input)),
            _ => (self, InputResult::Noop),
        }
    }

    /// The command comes from the seat whose turn it is.
    pub open spec fn is_turn_of(self, player_id: i32) -> bool {
        self.has_active() && player_id == self.active_player_id as i32
    }

    /// What `Undo` does: the newest action of the log is taken back, or the game
    /// is left as it was where the board does not hold what the log recorded.
    pub open spec fn undo_step(self, input: UserInput) -> (StateView, InputResult) {
        if self.undo_ready() {
            (self.undone(), updated(Mode::Select, input))
        } else {
            (self, InputResult::UndoFailed)
        }
    }

    /// What a command does according to the phase of the game, before the game
    /// is asked whether it is over. The first command of a game takes it out of
    /// `Initialize`, whatever it is. While a piece is chosen or laid only the
    /// commands of the seat whose turn it is count; `Undo` is heard only while a
    /// piece is chosen.
    pub open spec fn phase_step(self, input: UserInput) -> (StateView, InputResult) {
        match self.mode {
            Mode::Initialize => (
                self,
                InputResult::Updated { trigger: None, newmode: Mode::Select },
            ),
            Mode::Select => if !self.is_turn_of(input.player_id) {
                (self, InputResult::Noop)
            } else if input.input == Input::Undo {
                self.undo_step(input)
            } else {
                self.select_step(input)
            },
            Mode::Put => if self.is_turn_of(input.player_id) {
                self.put_step(input)
            } else {
                (self, InputResult::Noop)
            },
            Mode::Finish => (self, InputResult::Noop),
        }
    }

    /// What a command does to the game, and the answer to it. A request for a
    /// broadcast changes nothing and is answered as a change, from whatever seat
    /// it comes. Every other command goes by the phase of the game, and a change
    /// that leaves every player ended is answered with the phase `Finish`.
    pub open spec fn input_step(self, input: UserInput) -> (StateView, InputResult) {
        if input.input == Input::RequestBroadcast {
            (self, updated(self.mode, input))
        } else {
            let (s, r) = self.phase_step(input);
            match r {
                InputResult::Updated { trigger, newmode } => if s.is_finished() {
                    (s, InputResult::Updated { trigger, newmode: Mode::Finish })
                } else {
                    (s, r)
                },
                _ => (s, r),
            }
        }
    }
}

/// What `seek_free` finds: the first of the indices met that does not hold
/// `true`, or nothing where each of them holds it.
pub proof fn lemma_seek_free(fixed: Seq<bool>, from: int, delta: int, steps: nat)
    requires
        0 <= from < fixed.len(),
        0 <= delta,
    ensures
        match seek_free(fixed, from, delta, steps) {
            Some(s) => exists|j: int|
                0 <= j < steps && s == #[trigger] visit(from, delta, fixed.len() as int, j)
                    && !fixed[s] && forall|i: int|
                    0 <= i < j ==> fixed[#[trigger] visit(from, delta, fixed.len() as int, i)],
            None => forall|j: int|
                0 <= j < steps ==> fixed[#[trigger] visit(from, delta, fixed.len() as int, j)],
        },
    decreases steps,
{
    let n = fixed.len() as int;
    assert(0 * delta == 0) by (nonlinear_arith);
    vstd::arithmetic::div_mod::lemma_small_mod(from as nat, n as nat);
    assert(visit(from, delta, n, 0) == from);
    if steps == 0 {
    } else if !fixed[from] {
    } else {
        let next = (from + delta) % n;
        lemma_seek_free(fixed, next, delta, (steps - 1) as nat);
        assert forall|j: int| 0 <= j implies visit(next, delta, n, j) == #[trigger] visit(
            from,
            delta,
            n,
            j + 1,
        ) by {
            assert((j + 1) * delta == j * delta + delta) by (nonlinear_arith);
            vstd::arithmetic::div_mod::lemma_add_mod_noop_right(j * delta, from + delta, n);
        }
        match seek_free(fixed, next, delta, (steps - 1) as nat) {
            Some(s) => {
                let j = choose|j: int|
                    0 <= j < steps - 1 && s == #[trigger] visit(next, delta, n, j) && !fixed[s]
                        && forall|i: int| 0 <= i < j ==> fixed[#[trigger] visit(next, delta, n, i)];
                assert(s == visit(from, delta, n, j + 1));
                assert forall|i: int| 0 <= i < j + 1 implies fixed[#[trigger] visit(
                    from,
                    delta,
                    n,
                    i,
                )] by {
                    if i > 0 {
                        assert(visit(next, delta, n, i - 1) == visit(from, delta, n, i - 1 + 1));
                    }
                }
            },
            None => {
                assert forall|j: int| 0 <= j < steps implies fixed[#[trigger] visit(
                    from,
                    delta,
                    n,
                    j,
                )] by {
                    if j > 0 {
                        assert(visit(next, delta, n, j - 1) == visit(from, delta, n, j - 1 + 1));
                    }
                }
            },
        }
    }
}

/// A step of the cursor finds a piece exactly where the tray holds one that
/// does not lie on the board, and then the cursor stands on such a piece.
pub proof fn lemma_selected_next_found(p: PlayerView, reverse: bool)
    requires
        p.wf(),
    ensures
        p.selected_next(reverse).1 == p.has_free_piece(),
        p.selected_next(reverse).0.select < p.fixed.len(),
        p.selected_next(reverse).1 ==> !p.fixed[p.selected_next(reverse).0.select as int],
{
    let n = p.fixed.len() as int;
    let delta = select_delta(n, reverse);
    let start = (p.select + delta) % n;
    lemma_seek_free(p.fixed, start, delta, n as nat);
    match seek_free(p.fixed, start, delta, n as nat) {
        Some(s) => {
            let j = choose|j: int|
                0 <= j < n && s == #[trigger] visit(start, delta, n, j) && !p.fixed[s];
            assert(0 <= s < n);
        },
        None => {
            assert forall|k: int| 0 <= k < n implies p.fixed[k] by {
                lemma_round_visits_all(start, delta, n, reverse, k);
                let j = choose|j: int| 0 <= j < n && #[trigger] visit(start, delta, n, j) == k;
                assert(p.fixed[visit(start, delta, n, j)]);
            }
        },
    }
}

/// How many of the `d` indices that follow `from` in cyclic order do not hold
/// `true`.
pub open spec fn free_count(fixed: Seq<bool>, from: int, d: int) -> int
    decreases d,
{
    if d <= 0 {
        0
    } else {
        free_count(fixed, from, d - 1) + if fixed[(from + d) % (fixed.len() as int)] {
            0int
        } else {
            1int
        }
    }
}

impl PlayerView {
    /// The player after `j` steps of the cursor in forward direction.
    pub open spec fn selected_times(self, j: nat) -> PlayerView
        decreases j,
    {
        if j == 0 {
            self
        } else {
            self.selected_next(false).0.selected_times((j - 1) as nat)
        }
    }
}

/// Counting over `d1 + e` indices is counting over the first `d1` and then over
/// the `e` that follow them.
pub proof fn lemma_free_count_split(fixed: Seq<bool>, from: int, d1: int, e: int)
    requires
        fixed.len() > 0,
        0 <= from,
        0 <= d1,
        0 <= e,
    ensures
        free_count(fixed, from, d1 + e) == free_count(fixed, from, d1) + free_count(
            fixed,
            (from + d1) % (fixed.len() as int),
            e,
        ),
        0 <= free_count(fixed, from, d1) <= free_count(fixed, from, d1 + e),
    decreases e,
{
    let n = fixed.len() as int;
    if e > 0 {
        lemma_free_count_split(fixed, from, d1, e - 1);
        vstd::arithmetic::div_mod::lemma_add_mod_noop_right(e, from + d1, n);
        assert((from + d1) % n + e == e + (from + d1) % n);
        assert(from + (d1 + e) == e + (from + d1));
    } else {
        lemma_free_count_bounds(fixed, from, d1);
    }
}

/// The count is not negative, and it is zero where every index counted holds
/// `true`.
pub proof fn lemma_free_count_bounds(fixed: Seq<bool>, from: int, d: int)
    requires
        fixed.len() > 0,
    ensures
        0 <= free_count(fixed, from, d),
        (forall|i: int| 1 <= i <= d ==> fixed[#[trigger] visit(from, 1, fixed.len() as int, i)])
            ==> free_count(fixed, from, d) == 0,
    decreases d,
{
    if d > 0 {
        lemma_free_count_bounds(fixed, from, d - 1);
        assert(d * 1 == d) by (nonlinear_arith);
        assert(visit(from, 1, fixed.len() as int, d) == (from + d) % (fixed.len() as int));
    }
}

/// Steps of the cursor in forward direction come by the pieces that do not lie
/// on the board in their cyclic order, each once in a round, round after round:
/// the piece `d` places behind the cursor, however many rounds `d` goes, is
/// reached by as many steps as there are such pieces among the `d` places behind
/// the cursor. So a player with `k` such pieces reaches each of them within `k`
/// steps, the nearer first, and a cursor that stands on one of them is back on
/// it after `k` steps and not before.
pub proof fn lemma_select_next_order(p: PlayerView, d: int)
    requires
        p.wf(),
        1 <= d,
        !p.fixed[(p.select + d) % (p.fixed.len() as int)],
    ensures
        1 <= free_count(p.fixed, p.select as int, d),
        d <= p.fixed.len() ==> free_count(p.fixed, p.select as int, d) <= free_count(
            p.fixed,
            p.select as int,
            p.fixed.len() as int,
        ),
        p.selected_times(free_count(p.fixed, p.select as int, d) as nat) == (PlayerView {
            select: ((p.select + d) % (p.fixed.len() as int)) as usize,
            ..p
        }),
        forall|c: int|
            1 <= c < d && !p.fixed[(p.select + c) % (p.fixed.len() as int)] ==> #[trigger] free_count(
                p.fixed,
                p.select as int,
                c,
            ) < free_count(p.fixed, p.select as int, d),
    decreases d,
{
    let n = p.fixed.len() as int;
    let s = p.select as int;
    let start = (s + 1) % n;
    assert forall|j: int| 0 <= j implies #[trigger] visit(start, 1, n, j) == (s + (j + 1)) % n by {
        assert(j * 1 == j) by (nonlinear_arith);
        vstd::arithmetic::div_mod::lemma_add_mod_noop_right(j, s + 1, n);
    }
    assert forall|j: int| 0 <= j implies #[trigger] visit(s, 1, n, j) == (s + j) % n by {
        assert(j * 1 == j) by (nonlinear_arith);
    }
    lemma_seek_free(p.fixed, start, 1, n as nat);
    let r = (d - 1) % n;
    vstd::arithmetic::div_mod::lemma_mod_pos_bound(d - 1, n);
    vstd::arithmetic::div_mod::lemma_mod_decreases((d - 1) as nat, n as nat);
    vstd::arithmetic::div_mod::lemma_add_mod_noop_right(s + 1, d - 1, n);
    assert(visit(start, 1, n, r) == (s + d) % n);
    assert(!p.fixed[visit(start, 1, n, r)]);
    let found = seek_free(p.fixed, start, 1, n as nat);
    assert(found is Some);
    let s1 = found->0;
    let j1 = choose|j: int|
        0 <= j < n && s1 == #[trigger] visit(start, 1, n, j) && !p.fixed[s1] && forall|i: int|
            0 <= i < j ==> p.fixed[#[trigger] visit(start, 1, n, i)];
    let d1 = j1 + 1;
    assert(d1 <= d) by {
        if r < j1 {
            assert(p.fixed[visit(start, 1, n, r)]);
        }
    }
    let q = p.selected_next(false).0;
    assert(q == PlayerView { select: s1 as usize, ..p });
    assert(s1 == (s + d1) % n);
    assert forall|i: int| 1 <= i <= d1 - 1 implies p.fixed[#[trigger] visit(s, 1, n, i)] by {
        assert(p.fixed[visit(start, 1, n, i - 1)]);
    }
    lemma_free_count_bounds(p.fixed, s, d1 - 1);
    assert(free_count(p.fixed, s, d1) == 1);
    lemma_free_count_split(p.fixed, s, d1, d - d1);
    if d <= n {
        lemma_free_count_split(p.fixed, s, d, n - d);
    }
    if d1 < d {
        vstd::arithmetic::div_mod::lemma_add_mod_noop_right(d - d1, s + d1, n);
        assert((s1 + (d - d1)) % n == (s + d) % n) by {
            assert(s1 + (d - d1) == (d - d1) + (s + d1) % n);
            assert((d - d1) + (s + d1) == s + d);
        }
        lemma_select_next_order(q, d - d1);
        let c1 = free_count(p.fixed, s1, d - d1);
        assert(p.selected_times((1 + c1) as nat) == q.selected_times(c1 as nat));
    } else {
        assert(p.selected_times(1) == q.selected_times(0));
    }
    assert forall|c: int| 1 <= c < d && !p.fixed[(s + c) % n] implies #[trigger] free_count(
        p.fixed,
        s,
        c,
    ) < free_count(p.fixed, s, d) by {
        lemma_free_count_split(p.fixed, s, c, d - 1 - c);
    }
}

/// A cursor that stands on a piece that does not lie on the board is back on it
/// after as many steps as the player has such pieces.
pub proof fn lemma_select_next_period(p: PlayerView)
    requires
        p.wf(),
        !p.fixed[p.select as int],
    ensures
        p.selected_times(free_count(p.fixed, p.select as int, p.fixed.len() as int) as nat) == p,
{
    let n = p.fixed.len() as int;
    vstd::arithmetic::div_mod::lemma_mod_add_multiples_vanish(p.select as int, n);
    vstd::arithmetic::div_mod::lemma_small_mod(p.select as nat, n as nat);
    lemma_select_next_order(p, n);
}

/// The count of the pieces that do not lie on the board is the same from
/// whatever place a whole round is counted.
pub proof fn lemma_free_count_round(fixed: Seq<bool>, from: int, other: int)
    requires
        0 <= from < fixed.len(),
        0 <= other < fixed.len(),
    ensures
        free_count(fixed, from, fixed.len() as int) == free_count(
            fixed,
            other,
            fixed.len() as int,
        ),
    decreases
            if from <= other {
                other - from
            } else {
                from - other
            },
{
    let n = fixed.len() as int;
    if from < other {
        lemma_free_count_shift(fixed, from);
        vstd::arithmetic::div_mod::lemma_small_mod((from + 1) as nat, n as nat);
        lemma_free_count_round(fixed, from + 1, other);
    } else if other < from {
        lemma_free_count_shift(fixed, other);
        vstd::arithmetic::div_mod::lemma_small_mod((other + 1) as nat, n as nat);
        lemma_free_count_round(fixed, from, other + 1);
    }
}

/// A whole round counted from one place further on counts the same pieces.
proof fn lemma_free_count_shift(fixed: Seq<bool>, from: int)
    requires
        0 <= from < fixed.len(),
    ensures
        free_count(fixed, from, fixed.len() as int) == free_count(
            fixed,
            (from + 1) % (fixed.len() as int),
            fixed.len() as int,
        ),
{
    let n = fixed.len() as int;
    let next = (from + 1) % n;
    lemma_free_count_split(fixed, from, 1, n - 1);
    assert(free_count(fixed, from, 1) == free_count(fixed, from, 0) + if fixed[(from + 1) % n] {
        0int
    } else {
        1int
    });
    assert(free_count(fixed, next, n) == free_count(fixed, next, n - 1) + if fixed[(next + n) % n] {
        0int
    } else {
        1int
    });
    vstd::arithmetic::div_mod::lemma_mod_add_multiples_vanish(next, n);
    vstd::arithmetic::div_mod::lemma_mod_twice(from + 1, n);
    assert((next + n) % n == next);
}

impl PlayerView {
    /// The cursor stands on a piece that does not lie on the board, unless every
    /// piece lies there.
    pub open spec fn cursor_ok(self) -> bool {
        !self.fixed[self.select as int] || !self.has_free_piece()
    }
}

impl StateView {
    /// Every player's cursor stands on a piece that does not lie on the board,
    /// unless every piece of the player lies there.
    pub open spec fn cursors_ok(self) -> bool {
        forall|i: int| 0 <= i < self.players.len() ==> (#[trigger] self.players[i]).cursor_ok()
    }
}

/// Taking back the newest action keeps every cursor on a piece that does not
/// lie on the board.
pub proof fn lemma_undo_keeps_cursors(s: StateView)
    requires
        s.wf(),
        s.cursors_ok(),
        s.undo_ready(),
    ensures
        s.undone().cursors_ok(),
        s.undone().wf(),
    decreases s.event_history.len(),
{
    if s.event_history.len() > 0 {
        let e = s.event_history.last();
        let rest = s.popped();
        assert(event_ok(s.players, s.event_history[s.event_history.len() - 1]));
        lemma_wf_kept(s, rest);
        let t = rest.event_undone(e);
        match e {
            Event::Put(put) => {
                let seat = put.player_entity as int;
                let k = rest.piece_of(put);
                assert(player_ok(s.players, s.polynomios, seat));
                assert(s.polynomios[k].wf());
                assert forall|i: int| 0 <= i < t.players.len() implies (#[trigger] t.players[i]).cursor_ok() by {
                    if i != seat {
                        assert(s.players[i].cursor_ok());
                    }
                }
                lemma_wf_kept(rest, t);
            },
            Event::TurnChange(turn) => {
                lemma_wf_kept(rest, t);
                lemma_undo_keeps_cursors(t);
            },
            Event::GiveUp(end) => {
                let seat = end.player_entity as int;
                assert(player_ok(s.players, s.polynomios, seat));
                assert forall|i: int| 0 <= i < t.players.len() implies (#[trigger] t.players[i]).cursor_ok() by {
                    assert(s.players[i].cursor_ok());
                }
                lemma_wf_kept(rest, t);
            },
        }
    }
}

/// No command takes a cursor onto a piece that lies on the board while its
/// player has another: in a consistent game in which every cursor stands on a
/// piece that does not lie on the board, or every piece of its player lies
/// there, the same holds after any command.
pub proof fn lemma_input_keeps_cursors(s: StateView, input: UserInput)
    requires
        s.wf(),
        s.cursors_ok(),
    ensures
        s.input_step(input).0.cursors_ok(),
{
    let t = s.input_step(input).0;
    if input.input == Input::RequestBroadcast {
    } else if input.input == Input::Undo && s.mode == Mode::Select && s.is_turn_of(
        input.player_id,
    ) {
        if s.undo_ready() {
            lemma_undo_keeps_cursors(s);
        }
    } else if s.is_turn_of(input.player_id) && (s.mode == Mode::Select || s.mode == Mode::Put) {
        let seat = s.active_player_id as int;
        assert(player_ok(s.players, s.polynomios, seat));
        let p = s.active();
        lemma_selected_next_found(p, false);
        lemma_selected_next_found(p, true);
        let marked = PlayerView { fixed: p.fixed.update(p.select as int, true), ..p };
        lemma_selected_next_found(marked, false);
        assert(s.players[seat].cursor_ok());
        assert forall|i: int| 0 <= i < t.players.len() implies (#[trigger] t.players[i]).cursor_ok() by {
            if i != seat {
                assert(s.players[i].cursor_ok());
                assert(t.players[i] == s.players[i]);
            } else {
                let q = t.players[i];
                assert(q.fixed == p.fixed || q.fixed == marked.fixed);
                if q.fixed == p.fixed && q.select == p.select {
                    assert(q.has_free_piece() == p.has_free_piece());
                }
            }
        }
    } else {
        assert(t.players == s.players);
    }
}

impl StateView {
    /// The turn is with a player who has not ended, unless every player has
    /// ended.
    pub open spec fn turn_ok(self) -> bool {
        self.is_finished() || (self.has_active() && !self.active().end)
    }
}

/// The log is made of pairs: an action, a piece laid or a player's end, and
/// immediately above it the change of turn that it brought, away from the seat
/// of the action.
pub open spec fn log_paired(log: Seq<Event>) -> bool
    decreases log.len(),
{
    if log.len() == 0 {
        true
    } else if log.len() == 1 {
        false
    } else {
        &&& log[log.len() - 1] matches Event::TurnChange(turn)
        &&& match log[log.len() - 2] {
            Event::Put(e) => e.player_entity == turn.from,
            Event::GiveUp(e) => e.player_entity == turn.from,
            Event::TurnChange(e) => false,
        }
        &&& log_paired(log.take(log.len() - 2))
    }
}

/// In a game whose log is made of pairs, taking back the newest action takes
/// exactly the newest pair off the log and gives the turn back to the seat of
/// the action, whose player has then not ended.
pub proof fn lemma_undo_of_pair(s: StateView)
    requires
        s.wf(),
        log_paired(s.event_history),
        s.event_history.len() > 0,
        s.undo_ready(),
    ensures
        s.undone().event_history == s.event_history.take(s.event_history.len() - 2),
        log_paired(s.undone().event_history),
        s.event_history.last() matches Event::TurnChange(turn) && s.undone().active_player_id
            == turn.from,
        s.undone().has_active(),
        !s.undone().active().end,
        s.undone().players.len() == s.players.len(),
{
    let log = s.event_history;
    let n = log.len() as int;
    let turn = log[n - 1]->TurnChange_0;
    let action = log[n - 2];
    assert(event_ok(s.players, log[n - 1]));
    assert(event_ok(s.players, log[n - 2]));
    let back = StateView { active_player_id: turn.from, ..s.popped() };
    assert(s.popped().event_undone(log[n - 1]) == back);
    assert(back.event_history.last() == action);
    assert(back.event_history.drop_last() =~= log.take(n - 2));
    assert(back.undone() == back.popped().event_undone(action));
    assert(player_ok(s.players, s.polynomios, turn.from as int));
}

/// No command breaks the pairs of the log: where the log is made of pairs
/// before a command, it is so after it.
pub proof fn lemma_input_keeps_log(s: StateView, input: UserInput)
    requires
        s.wf(),
        log_paired(s.event_history),
    ensures
        log_paired(s.input_step(input).0.event_history),
{
    let t = s.input_step(input).0;
    let log = s.event_history;
    if input.input == Input::RequestBroadcast || !s.is_turn_of(input.player_id) {
    } else if s.mode == Mode::Select && input.input == Input::Undo {
        if s.undo_ready() && log.len() > 0 {
            lemma_undo_of_pair(s);
        }
    } else if t.event_history != log {
        let seat = s.active_player_id;
        let turn = Event::TurnChange(TurnChangeEvent { from: seat });
        let action = t.event_history[t.event_history.len() - 2];
        assert(t.event_history == log.push(action).push(turn));
        assert(log.push(action).push(turn).take(log.len() as int) =~= log);
    }
}

/// No command leaves the turn with a player who has ended while another has
/// not: in a consistent game in which the turn is with a player who has not
/// ended, or every player has ended, the same holds after the command. For
/// `Undo` this rests on the log being made of pairs.
pub proof fn lemma_input_keeps_turn(s: StateView, input: UserInput)
    requires
        s.wf(),
        s.turn_ok(),
        input.input == Input::Undo ==> log_paired(s.event_history),
    ensures
        s.input_step(input).0.turn_ok(),
{
    let t = s.input_step(input).0;
    if input.input == Input::Undo {
        if s.mode == Mode::Select && s.is_turn_of(input.player_id) && s.undo_ready()
            && s.event_history.len() > 0 {
            lemma_undo_of_pair(s);
        }
    } else if input.input != Input::RequestBroadcast && s.is_turn_of(input.player_id) && (s.mode
        == Mode::Select || s.mode == Mode::Put) {
        let seat = s.active_player_id as int;
        assert(player_ok(s.players, s.polynomios, seat));
        let ended = s.with_player(seat, PlayerView { end: true, ..s.active() });
        let k = s.active_piece();
        let laid = (StateView {
            map: s.map.stamped(s.board_x(k), s.board_y(k), s.polynomios[k].coods, seat as i32),
            ..s
        }).with_player(seat, s.laid_by());
        lemma_selected_next_found(
            PlayerView { fixed: s.active().fixed.update(s.active().select as int, true), ..s.active() },
            false,
        );
        lemma_selected_next_found(s.active(), false);
        lemma_selected_next_found(s.active(), true);
        assert(s.polynomios[k].wf());
        lemma_wf_kept(s, ended);
        lemma_wf_kept(s, laid);
        lemma_turn_advanced(ended);
        lemma_turn_advanced(laid);
        if t.players == s.players && t.active_player_id == s.active_player_id {
        } else if t.players == s.selection_moved(false).players || t.players == s.selection_moved(
            true,
        ).players {
            if !s.is_finished() {
                assert(!t.players[seat].end);
            } else {
                assert forall|i: int| 0 <= i < t.players.len() implies (#[trigger] t.players[i]).end by {
                    assert(s.players[i].end);
                }
            }
        }
    } else {
        assert(t.players == s.players);
    }
}

/// Taking back a piece that has just been laid takes the whole action back in
/// one step, whether or not it was the player's last piece: the board and the
/// log are as they were before the piece was laid, the turn is back with the
/// player, the piece counts as not laid, lies in its tray in its first shape and
/// place and is under the player's cursor, and the player has not ended. Where
/// the cursor stood on a piece that was not yet laid and the player had not
/// ended, as it is in every game that is played by its rules, the players are
/// exactly as they were.
pub proof fn lemma_undo_after_put(s: StateView)
    requires
        s.wf(),
        s.has_active(),
        s.can_put_piece(),
    ensures
        s.piece_put().event_history == s.event_history.push(
            Event::Put(
                PutEvent { player_entity: s.active_player_id, polynomio_id: s.active().select },
            ),
        ).push(Event::TurnChange(TurnChangeEvent { from: s.active_player_id })),
        s.piece_put().undo_ready(),
        s.piece_put().undone() == (StateView {
            players: s.players.update(
                s.active_player_id as int,
                PlayerView {
                    fixed: s.active().fixed.update(s.active().select as int, false),
                    end: false,
                    ..s.active()
                },
            ),
            positions: s.positions.update(
                s.active_piece(),
                s.positions[s.active_piece()].at_origin(),
            ),
            polynomios: s.polynomios.update(
                s.active_piece(),
                s.polynomios[s.active_piece()].at_origin(),
            ),
            ..s
        }),
        !s.active().fixed[s.active().select as int] && !s.active().end
            ==> s.piece_put().undone().players == s.players,
{
    let seat = s.active_player_id;
    let slot = s.active().select;
    let k = s.active_piece();
    let after = s.laid_by();
    let put = PutEvent { player_entity: seat, polynomio_id: slot };
    let turn = TurnChangeEvent { from: seat };
    assert(player_ok(s.players, s.polynomios, seat as int));
    lemma_selected_next_found(
        PlayerView { fixed: s.active().fixed.update(slot as int, true), ..s.active() },
        false,
    );
    let stamped = (StateView {
        map: s.map.stamped(s.board_x(k), s.board_y(k), s.polynomios[k].coods, seat as i32),
        ..s
    }).with_player(seat as int, after);
    let turned = stamped.turn_advanced();
    let logged = turned.pushed(Event::Put(put));
    let done = logged.pushed(Event::TurnChange(turn));
    assert(done == s.piece_put());
    assert(done.event_history.last() == Event::TurnChange(turn));
    assert(done.event_history.drop_last() =~= logged.event_history);
    assert(logged.event_history.last() == Event::Put(put));
    assert(logged.event_history.drop_last() =~= s.event_history);
    let back = StateView { active_player_id: seat, ..logged };
    assert(done.popped().event_undone(Event::TurnChange(turn)) == back);
    let bare = back.popped();
    assert(bare == StateView { active_player_id: seat, event_history: s.event_history, ..stamped });
    assert(bare.piece_of(put) == k);
    crate::board::lemma_put_then_remove(
        s.map,
        s.board_x(k),
        s.board_y(k),
        s.polynomios[k].coods,
        seat as i32,
    );
    assert(bare.put_undoable(put));
    let undone = bare.put_undone(put);
    let restored = PlayerView {
        fixed: s.active().fixed.update(slot as int, false),
        end: false,
        ..s.active()
    };
    assert(after.fixed.update(slot as int, false) =~= restored.fixed);
    assert(undone.players =~= s.players.update(seat as int, restored));
    if !s.active().fixed[slot as int] && !s.active().end {
        assert(restored.fixed =~= s.active().fixed);
        assert(undone.players =~= s.players);
    }
    assert(back.undo_ready());
    assert(back.undone() == undone);
}

impl StateView {
    /// The game after the piece under the cursor has been laid on the board
    /// without any record of it, where the board accepts it; the game itself
    /// where it does not.
    pub open spec fn piece_stamped(self) -> StateView {
        let k = self.active_piece();
        if self.can_put_piece() {
            StateView {
                map: self.map.stamped(
                    self.board_x(k),
                    self.board_y(k),
                    self.polynomios[k].coods,
                    self.active_player_id as i32,
                ),
                ..self
            }
        } else {
            self
        }
    }

    /// What a key does to a client's copy of the game before the server has
    /// answered, in the phase in which a piece is chosen, and the phase that
    /// follows.
    pub open spec fn client_select_step(self, input: Input) -> (StateView, Mode) {
        match input {
            Input::Right => (self.selection_moved(false), Mode::Select),
            Input::Left => (self.selection_moved(true), Mode::Select),
            Input::Enter => (self.piece_centered(), Mode::Put),
            Input::GiveUp => (
                self.with_player(
                    self.active_player_id as int,
                    PlayerView { end: true, ..self.active() },
                ),
                Mode::Select,
            ),
            _ => (self, Mode::Select),
        }
    }

    /// The same in the phase in which a piece is laid. `Enter` is left to
    /// `ClientStateView::client_step`.
    pub open spec fn client_put_step(self, input: Input) -> (StateView, Mode) {
        match input {
            Input::RotateRight => (self.piece_rotated(true), Mode::Put),
            Input::RotateLeft => (self.piece_rotated(false), Mode::Put),
            Input::Flip => (self.piece_flipped(), Mode::Put),
            Input::Up => (self.piece_moved(0, -1i32), Mode::Put),
            Input::Down => (self.piece_moved(0, 1), Mode::Put),
            Input::Left => (self.piece_moved(-1i32, 0), Mode::Put),
            Input::Right => (self.piece_moved(1, 0), Mode::Put),
            Input::Enter => (self.piece_stamped(), Mode::Put),
            Input::Cancel => (self.edit_cancelled(), Mode::Select),
            _ => (self, Mode::Put),
        }
    }
}

impl ClientStateView {
    /// It is the turn of this client's seat.
    pub open spec fn own_turn(self) -> bool {
        self.player_id >= 0 && self.player_id == self.game.active_player_id
    }

    /// What a key does to the client before the server has answered, and the
    /// phase that follows. Nothing happens while the client waits for an answer,
    /// while it is not its turn, or without a key. `Enter` on a piece that is
    /// being laid lays it on the client's board, if the board accepts it, and
    /// makes the client wait.
    pub open spec fn client_step(self, input: Option<Input>) -> (ClientStateView, Mode) {
        let mode = self.game.mode;
        if self.locked || !self.own_turn() || input is None {
            (self, mode)
        } else {
            let i = input->0;
            match mode {
                Mode::Initialize => (self, Mode::Select),
                Mode::Select => if self.game.has_active() {
                    (
                        ClientStateView { game: self.game.client_select_step(i).0, ..self },
                        self.game.client_select_step(i).1,
                    )
                } else {
                    (self, mode)
                },
                Mode::Put => if self.game.has_active() {
                    (
                        ClientStateView {
                            game: self.game.client_put_step(i).0,
                            locked: i == Input::Enter,
                            ..self
                        },
                        self.game.client_put_step(i).1,
                    )
                } else {
                    (self, mode)
                },
                Mode::Finish => (self, Mode::Finish),
            }
        }
    }
}

/// One step of `i` around `0..n`.
fn step_cyclic(i: usize, n: usize, reverse: bool) -> (r: usize)
    requires
        i < n,
    ensures
        r == (i + select_delta(n as int, reverse)) % (n as int),
        r < n,
{
    if reverse {
        if i == 0 {
            proof {
                vstd::arithmetic::div_mod::lemma_small_mod((n - 1) as nat, n as nat);
            }
            n - 1
        } else {
            proof {
                vstd::arithmetic::div_mod::lemma_fundamental_div_mod_converse(
                    i + n - 1,
                    n as int,
                    1,
                    i - 1,
                );
            }
            i - 1
        }
    } else {
        if i + 1 == n {
            proof {
                vstd::arithmetic::div_mod::lemma_mod_self_0(n as int);
            }
            0
        } else {
            proof {
                vstd::arithmetic::div_mod::lemma_small_mod((i + 1) as nat, n as nat);
            }
            i + 1
        }
    }
}

/// Moves the cursor of `player` to the next piece that does not lie on the
/// board, and says whether there is one.
pub fn select_next(player: &mut Player, reverse: bool) -> (found: bool)
    requires
        old(player)@.wf(),
    ensures
        final(player)@ == old(player)@.selected_next(reverse).0,
        found == old(player)@.selected_next(reverse).1,
        final(player)@.wf(),
        found == old(player)@.has_free_piece(),
        found ==> !final(player)@.fixed[final(player)@.select as int],
{
    let n = player.polynomios.len();
    let ghost delta = select_delta(n as int, reverse);
    player.select = step_cyclic(player.select, n, reverse);
    let ghost start = player.select as int;
    proof {
        assert(0 * delta == 0) by (nonlinear_arith);
        vstd::arithmetic::div_mod::lemma_small_mod(start as nat, n as nat);
    }

    let mut i: usize = 0;
    while i < n
        invariant
            i <= n,
            n == player.fixed.len(),
            n == player.polynomios.len(),
            delta == select_delta(n as int, reverse),
            player.select < n,
            player@ == (PlayerView { select: player.select, ..old(player)@ }),
            0 <= start < n,
            start == (old(player)@.select + delta) % (n as int),
            player.select == visit(start, delta, n as int, i as int),
            seek_free(player@.fixed, start, delta, n as nat) == seek_free(
                player@.fixed,
                player.select as int,
                delta,
                (n - i) as nat,
            ),
            forall|j: int| 0 <= j < i ==> player@.fixed[#[trigger] visit(start, delta, n as int, j)],
        decreases n - i,
    {
        if !player.fixed[player.select] {
            assert(seek_free(player@.fixed, player.select as int, delta, (n - i) as nat) == Some(
                player.select as int,
            ));
            return true;
        }
        player.select = step_cyclic(player.select, n, reverse);
        proof {
            let m = n as int;
            assert((i + 1) * delta == i * delta + delta) by (nonlinear_arith);
            vstd::arithmetic::div_mod::lemma_add_mod_noop_right(delta, start + i * delta, m);
        }
        i += 1;
    }
    proof {
        let m = n as int;
        vstd::arithmetic::div_mod::lemma_mod_multiples_vanish(delta, start, m);
        vstd::arithmetic::div_mod::lemma_small_mod(start as nat, m as nat);
        assert(delta * m == m * delta) by (nonlinear_arith);
        assert forall|k: int| 0 <= k < n implies player@.fixed[k] by {
            lemma_round_visits_all(start, delta, m, reverse, k);
            let j = choose|j: int| 0 <= j < m && #[trigger] visit(start, delta, m, j) == k;
            assert(player@.fixed[visit(start, delta, m, j)]);
        }
    }
    return false;
}

/// A whole round of steps from `start` comes by every index.
pub proof fn lemma_round_visits_all(start: int, delta: int, n: int, reverse: bool, k: int)
    requires
        0 <= start < n,
        0 <= k < n,
        delta == select_delta(n, reverse),
    ensures
        exists|j: int| 0 <= j < n && #[trigger] visit(start, delta, n, j) == k,
{
    let j = if reverse {
        if k <= start {
            start - k
        } else {
            start - k + n
        }
    } else {
        if k >= start {
            k - start
        } else {
            k - start + n
        }
    };
    assert(0 <= j < n);
    if reverse {
        assert(j * (n - 1) == j * n - j) by (nonlinear_arith);
        if k <= start {
            vstd::arithmetic::div_mod::lemma_fundamental_div_mod_converse(
                start + j * delta,
                n,
                j,
                k,
            );
        } else {
            assert((j - 1) * n == j * n - n) by (nonlinear_arith);
            vstd::arithmetic::div_mod::lemma_fundamental_div_mod_converse(
                start + j * delta,
                n,
                j - 1,
                k,
            );
        }
    } else {
        assert(j * 1 == j) by (nonlinear_arith);
        if k >= start {
            vstd::arithmetic::div_mod::lemma_small_mod(k as nat, n as nat);
        } else {
            vstd::arithmetic::div_mod::lemma_fundamental_div_mod_converse(start + j * delta, n, 1, k);
        }
    }
    assert(visit(start, delta, n, j) == k);
}

/// Applies a command of the player whose turn it is while a piece is being
/// chosen.
pub fn player_input_select(gs: &mut State, user_input: UserInput) -> (r: InputResult)
    requires
        old(gs)@.wf(),
        old(gs)@.has_active(),
    ensures
        final(gs)@ == old(gs)@.select_step(user_input).0,
        r == old(gs)@.select_step(user_input).1,
        final(gs)@.wf(),
        final(gs)@.has_active(),
{
    let active_player_id = gs.active_player_id;
    let mut ended = false;
    let mut updated = false;
    let mut newmode = Mode::Select;
    proof {
        assert(player_ok(gs@.players, gs@.polynomios, active_player_id as int));
        assert(gs@.players[active_player_id as int] == gs.players[active_player_id as int]@);
    }
    match user_input.input {
        Input::Right => {
            updated = select_next(&mut gs.players[active_player_id], false);
            proof {
                assert(gs@.players =~= old(gs)@.selection_moved(false).players);
                lemma_wf_kept(old(gs)@, gs@);
            }
        },
        Input::Left => {
            updated = select_next(&mut gs.players[active_player_id], true);
            proof {
                assert(gs@.players =~= old(gs)@.selection_moved(true).players);
                lemma_wf_kept(old(gs)@, gs@);
            }
        },
        Input::Enter => {
            let select = gs.players[active_player_id].select;
            assert(gs@.players[active_player_id as int].polynomios[select as int]
                < gs.polynomios.len());
            let k = gs.players[active_player_id].polynomios[select];
            gs.positions[k].x = gs.map.width as i32 / 2 + gs.map.x;
            gs.positions[k].y = gs.map.height as i32 / 2 + gs.map.y;
            updated = true;
            newmode = Mode::Put;
            proof {
                assert(gs@.positions =~= old(gs)@.piece_centered().positions);
                lemma_wf_kept(old(gs)@, gs@);
            }
        },
        Input::GiveUp => {
            gs.players[active_player_id].end = true;
            ended = true;
            updated = true;
            proof {
                assert(gs@.players =~= old(gs)@.with_player(
                    active_player_id as int,
                    PlayerView { end: true, ..old(gs)@.active() },
                ).players);
                lemma_wf_kept(old(gs)@, gs@);
            }
        },
        _ => {},
    }
    if ended {
        gs.next_player();
        let ghost turned = gs@;
        gs.push_event(Event::GiveUp(GiveUpEvent { player_entity: active_player_id }));
        gs.push_event(Event::TurnChange(TurnChangeEvent { from: active_player_id }));
        proof {
            lemma_wf_kept(turned, gs@);
        }
    }
    match updated {
        true => InputResult::Updated { newmode, trigger: Some(user_input) },
        false => InputResult::Noop,
    }
}

/// Applies a command of the player whose turn it is while a piece is being
/// laid.
pub fn player_input_put(gs: &mut State, user_input: UserInput) -> (r: InputResult)
    requires
        old(gs)@.wf(),
        old(gs)@.has_active(),
    ensures
        final(gs)@ == old(gs)@.put_step(user_input).0,
        r == old(gs)@.put_step(user_input).1,
        final(gs)@.wf(),
        final(gs)@.has_active(),
{
    let mut next_player = false;
    let active_player_id = gs.active_player_id;
    let mut updated = false;
    let mut newmode = Mode::Put;
    proof {
        assert(player_ok(gs@.players, gs@.polynomios, active_player_id as int));
        assert(gs@.players[active_player_id as int] == gs.players[active_player_id as int]@);
    }
    let player_select = gs.players[active_player_id].select;
    assert(gs@.players[active_player_id as int].polynomios[player_select as int]
        < gs.polynomios.len());
    let k = gs.players[active_player_id].polynomios[player_select];
    proof {
        assert(gs@.polynomios[k as int] == gs.polynomios[k as int]@);
        assert(gs@.polynomios[k as int].wf());
    }
    match user_input.input {
        Input::RotateRight => {
            gs.polynomios[k].rotate(true);
            updated = true;
            proof {
                assert(gs@.polynomios =~= old(gs)@.piece_rotated(true).polynomios);
            }
        },
        Input::RotateLeft => {
            gs.polynomios[k].rotate(false);
            updated = true;
            proof {
                assert(gs@.polynomios =~= old(gs)@.piece_rotated(false).polynomios);
            }
        },
        Input::Flip => {
            gs.polynomios[k].flip();
            updated = true;
            proof {
                assert(gs@.polynomios =~= old(gs)@.piece_flipped().polynomios);
            }
        },
        Input::Up => {
            gs.positions[k].translate_within(0, -1, &gs.map);
            updated = true;
            proof {
                assert(gs@.positions =~= old(gs)@.piece_moved(0, -1i32).positions);
            }
        },
        Input::Down => {
            gs.positions[k].translate_within(0, 1, &gs.map);
            updated = true;
            proof {
                assert(gs@.positions =~= old(gs)@.piece_moved(0, 1).positions);
            }
        },
        Input::Left => {
            gs.positions[k].translate_within(-1, 0, &gs.map);
            updated = true;
            proof {
                assert(gs@.positions =~= old(gs)@.piece_moved(-1i32, 0).positions);
            }
        },
        Input::Right => {
            gs.positions[k].translate_within(1, 0, &gs.map);
            updated = true;
            proof {
                assert(gs@.positions =~= old(gs)@.piece_moved(1, 0).positions);
            }
        },
        Input::Enter => {
            let px: i64 = gs.positions[k].x as i64 - gs.map.x as i64;
            let py: i64 = gs.positions[k].y as i64 - gs.map.y as i64;
            if gs.map.try_put_at(px, py, &gs.polynomios[k].coods, active_player_id as i32) {
                gs.players[active_player_id].fixed[player_select] = true;
                if !select_next(&mut gs.players[active_player_id], false) {
                    gs.players[active_player_id].end = true;
                }
                next_player = true;
                updated = true;
                newmode = Mode::Select;
                proof {
                    assert(gs@.players =~= old(gs)@.players.update(
                        active_player_id as int,
                        old(gs)@.laid_by(),
                    ));
                }
            }
        },
        Input::Cancel => {
            gs.positions[k].reset();
            gs.polynomios[k].reset();
            updated = true;
            newmode = Mode::Select;
            proof {
                assert(gs@.positions =~= old(gs)@.edit_cancelled().positions);
                assert(gs@.polynomios =~= old(gs)@.edit_cancelled().polynomios);
            }
        },
        _ => {},
    }
    proof {
        lemma_wf_kept(old(gs)@, gs@);
    }
    if next_player {
        gs.next_player();
        let ghost turned = gs@;
        gs.push_event(
            Event::Put(PutEvent { player_entity: active_player_id, polynomio_id: player_select }),
        );
        gs.push_event(Event::TurnChange(TurnChangeEvent { from: active_player_id }));
        proof {
            lemma_wf_kept(turned, gs@);
        }
    }
    match updated {
        true => InputResult::Updated { newmode, trigger: Some(user_input) },
        false => InputResult::Noop,
    }
}

/// Applies one command to the game and says what became of it. The phase that
/// the answer names is not yet written to the game.
pub fn player_input(gs: &mut State, user_input: UserInput) -> (r: InputResult)
    requires
        old(gs)@.wf(),
    ensures
        final(gs)@ == old(gs)@.input_step(user_input).0,
        r == old(gs)@.input_step(user_input).1,
        final(gs)@.wf(),
{
    let mode = gs.mode;

    if user_input.input == Input::RequestBroadcast {
        return InputResult::Updated { newmode: mode, trigger: Some(user_input) };
    }
    let has_active = gs.active_player_id < gs.players.len();
    proof {
        if has_active {
            assert(player_ok(gs@.players, gs@.polynomios, gs.active_player_id as int));
        }
    }
    let result = match mode {
        Mode::Initialize => InputResult::Updated { newmode: Mode::Select, trigger: None },
        Mode::Select => {
            if !(has_active && user_input.player_id == gs.active_player_id as i32) {
                InputResult::Noop
            } else if user_input.input == Input::Undo {
                if gs.undo() {
                    InputResult::Updated { newmode: mode, trigger: Some(user_input) }
                } else {
                    InputResult::UndoFailed
                }
            } else {
                player_input_select(gs, user_input)
            }
        },
        Mode::Put => {
            if has_active && user_input.player_id == gs.active_player_id as i32 {
                player_input_put(gs, user_input)
            } else {
                InputResult::Noop
            }
        },
        Mode::Finish => InputResult::Noop,
    };

    if let InputResult::Updated { newmode: _, trigger } = result {
        if gs.is_finished() {
            return InputResult::Updated { newmode: Mode::Finish, trigger };
        }
    }
    result
}

/// The keys that the game hears.
#[derive(Clone, Copy, Debug, PartialEq, Eq, Structural)]
pub enum VirtualKeyCode {
    R,
    E,
    F,
    Up,
    Down,
    Left,
    Right,
    Return,
    Escape,
    Key0,
    Z,
    Other,
}

/// The command that a key stands for.
pub open spec fn key_command(key: Option<VirtualKeyCode>) -> Option<Input> {
    match key {
        None => None,
        Some(key) => match key {
            VirtualKeyCode::R => Some(Input::RotateRight),
            VirtualKeyCode::E => Some(Input::RotateLeft),
            VirtualKeyCode::F => Some(Input::Flip),
            VirtualKeyCode::Up => Some(Input::Up),
            VirtualKeyCode::Down => Some(Input::Down),
            VirtualKeyCode::Left => Some(Input::Left),
            VirtualKeyCode::Right => Some(Input::Right),
            VirtualKeyCode::Return => Some(Input::Enter),
            VirtualKeyCode::Escape => Some(Input::Cancel),
            VirtualKeyCode::Key0 => Some(Input::GiveUp),
            VirtualKeyCode::Z => Some(Input::Undo),
            VirtualKeyCode::Other => None,
        },
    }
}

/// The command that a key stands for, if it stands for one.
pub fn map_virtual_key_code(key: Option<VirtualKeyCode>) -> (input: Option<Input>)
    ensures
        input == key_command(key),
{
    match key {
        None => None,
        Some(key) => match key {
            VirtualKeyCode::R => Some(Input::RotateRight),
            VirtualKeyCode::E => Some(Input::RotateLeft),
            VirtualKeyCode::F => Some(Input::Flip),
            VirtualKeyCode::Up => Some(Input::Up),
            VirtualKeyCode::Down => Some(Input::Down),
            VirtualKeyCode::Left => Some(Input::Left),
            VirtualKeyCode::Right => Some(Input::Right),
            VirtualKeyCode::Return => Some(Input::Enter),
            VirtualKeyCode::Escape => Some(Input::Cancel),
            VirtualKeyCode::Key0 => Some(Input::GiveUp),
            VirtualKeyCode::Z => Some(Input::Undo),
            _ => None,
        },
    }
}

/// Applies a key to the client's own copy of the game before the server has
/// answered, and gives the phase that follows. The phase is not yet written to
/// the game.
pub fn player_input_client(gs: &mut ClientState, input: Option<Input>) -> (newmode: Mode)
    requires
        old(gs)@.game.wf(),
    ensures
        final(gs)@ == old(gs)@.client_step(input).0,
        newmode == old(gs)@.client_step(input).1,
        final(gs)@.game.wf(),
{
    let mode = gs.game.mode;
    if gs.locked {
        return mode;
    }
    let active_player_id = gs.game.active_player_id;
    proof {
        if active_player_id < gs.game.players.len() {
            assert(player_ok(gs.game@.players, gs.game@.polynomios, active_player_id as int));
            assert(gs.game@.players[active_player_id as int]
                == gs.game.players[active_player_id as int]@);
        }
    }
    if gs.player_id < 0 || gs.player_id as usize != active_player_id {
        return mode;
    }
    let input = match input {
        Some(input) => input,
        None => {
            return mode;
        },
    };
    if mode == Mode::Initialize {
        return Mode::Select;
    }
    if mode == Mode::Finish {
        return Mode::Finish;
    }
    if active_player_id >= gs.game.players.len() {
        return mode;
    }
    let select = gs.game.players[active_player_id].select;
    assert(gs.game@.players[active_player_id as int].polynomios[select as int]
        < gs.game.polynomios.len());
    let k = gs.game.players[active_player_id].polynomios[select];
    proof {
        assert(gs.game@.polynomios[k as int] == gs.game.polynomios[k as int]@);
        assert(gs.game@.polynomios[k as int].wf());
    }
    let ghost before = gs.game@;
    let mut newmode = mode;
    match mode {
        Mode::Select => {
            match input {
                Input::Right => {
                    select_next(&mut gs.game.players[active_player_id], false);
                    proof {
                        assert(gs.game@.players =~= before.selection_moved(false).players);
                    }
                },
                Input::Left => {
                    select_next(&mut gs.game.players[active_player_id], true);
                    proof {
                        assert(gs.game@.players =~= before.selection_moved(true).players);
                    }
                },
                Input::Enter => {
                    gs.game.positions[k].x = gs.game.map.width as i32 / 2 + gs.game.map.x;
                    gs.game.positions[k].y = gs.game.map.height as i32 / 2 + gs.game.map.y;
                    newmode = Mode::Put;
                    proof {
                        assert(gs.game@.positions =~= before.piece_centered().positions);
                    }
                },
                Input::GiveUp => {
                    gs.game.players[active_player_id].end = true;
                    proof {
                        assert(gs.game@.players =~= before.client_select_step(input).0.players);
                    }
                },
                _ => {},
            }
        },
        Mode::Put => {
            match input {
                Input::RotateRight => {
                    gs.game.polynomios[k].rotate(true);
                    proof {
                        assert(gs.game@.polynomios =~= before.piece_rotated(true).polynomios);
                    }
                },
                Input::RotateLeft => {
                    gs.game.polynomios[k].rotate(false);
                    proof {
                        assert(gs.game@.polynomios =~= before.piece_rotated(false).polynomios);
                    }
                },
                Input::Flip => {
                    gs.game.polynomios[k].flip();
                    proof {
                        assert(gs.game@.polynomios =~= before.piece_flipped().polynomios);
                    }
                },
                Input::Up => {
                    gs.game.positions[k].translate_within(0, -1, &gs.game.map);
                    proof {
                        assert(gs.game@.positions =~= before.piece_moved(0, -1i32).positions);
                    }
                },
                Input::Down => {
                    gs.game.positions[k].translate_within(0, 1, &gs.game.map);
                    proof {
                        assert(gs.game@.positions =~= before.piece_moved(0, 1).positions);
                    }
                },
                Input::Left => {
                    gs.game.positions[k].translate_within(-1, 0, &gs.game.map);
                    proof {
                        assert(gs.game@.positions =~= before.piece_moved(-1i32, 0).positions);
                    }
                },
                Input::Right => {
                    gs.game.positions[k].translate_within(1, 0, &gs.game.map);
                    proof {
                        assert(gs.game@.positions =~= before.piece_moved(1, 0).positions);
                    }
                },
                Input::Enter => {
                    let px: i64 = gs.game.positions[k].x as i64 - gs.game.map.x as i64;
                    let py: i64 = gs.game.positions[k].y as i64 - gs.game.map.y as i64;
                    gs.game.map.try_put_at(
                        px,
                        py,
                        &gs.game.polynomios[k].coods,
                        active_player_id as i32,
                    );
                    gs.locked = true;
                },
                Input::Cancel => {
                    gs.game.positions[k].reset();
                    gs.game.polynomios[k].reset();
                    newmode = Mode::Select;
                    proof {
                        assert(gs.game@.positions =~= before.edit_cancelled().positions);
                        assert(gs.game@.polynomios =~= before.edit_cancelled().polynomios);
                    }
                },
                _ => {},
            }
        },
        _ => {},
    }
    proof {
        lemma_wf_kept(before, gs.game@);
    }
    newmode
}

} // verus!
