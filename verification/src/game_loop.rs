//! One round of the game loop: the commands that wait are applied until one of
//! them changes the game, and the score is brought up to date.

use vstd::prelude::*;
use crate::input_source::Input;
use crate::input_source::InputQueue;
use crate::input_source::UserInput;
use crate::player::player_input;
use crate::player::InputResult;
use crate::polynomio_indexing_system::PolynomioIndexingSystem;
use crate::components::PlayerView;
use crate::server::PlayerSlotManager;
use crate::server::PlayerSlotView;
use crate::state::lemma_wf_kept;
use crate::state::player_ok;
use crate::state::Mode;
use crate::state::State;
use crate::state::StateView;
use crate::stats_collect_system::StatsCollectSystem;

verus! {

/// The commands of `q` applied to `s` in their order, up to and with the first
/// that is not answered by `Noop`: the game after them, the commands that still
/// wait, and the answer to the last one applied. An empty queue is answered by
/// `Noop`.
pub open spec fn drained(s: StateView, q: Seq<UserInput>) -> (StateView, Seq<UserInput>, InputResult)
    decreases q.len(),
{
    if q.len() == 0 {
        (s, q, InputResult::Noop)
    } else {
        let (next, r) = s.input_step(q[0]);
        let rest = q.subrange(1, q.len() as int);
        match r {
            InputResult::Noop => drained(next, rest),
            _ => (next, rest, r),
        }
    }
}

impl StateView {
    /// The game after its first round has begun: a game that waits in
    /// `Initialize` goes to `Select` and is scored.
    pub open spec fn started(self) -> StateView {
        if self.mode == Mode::Initialize {
            (StateView { mode: Mode::Select, ..self }).scored()
        } else {
            self
        }
    }

    /// The command that a key pressed at this machine stands for. Where one
    /// machine serves every seat it comes from the seat whose turn it is, else
    /// from the seat of this machine.
    pub open spec fn local_input(self, input: Input) -> UserInput {
        UserInput {
            player_id: if self.use_local_input {
                self.active_player_id as i32
            } else {
                self.my_player_id
            },
            token: Some(0i32),
            input,
        }
    }

    /// The game after the answer `r` has been taken in. The pieces are flagged
    /// anew in any case. After a change the phase is the one that the answer
    /// names, the players are scored, and the leader is kept as winner.
    pub open spec fn settled(self, r: InputResult) -> StateView {
        match r {
            InputResult::Updated { trigger, newmode } => {
                let s = StateView { mode: newmode, ..self.indexed() };
                StateView {
                    winner: if s.players.len() > 0 {
                        s.leader(s.players.len() as int) as usize
                    } else {
                        s.winner
                    },
                    ..s.scored()
                }
            },
            _ => self.indexed(),
        }
    }

    /// One round: the game after it, the commands that still wait, and the
    /// answer to the last command applied.
    pub open spec fn ticked(self, q: Seq<UserInput>, key: Option<Input>) -> (
        StateView,
        Seq<UserInput>,
        InputResult,
    ) {
        let s = self.started();
        let waiting = match key {
            Some(input) => q.push(s.local_input(input)),
            None => q,
        };
        let (after, rest, r) = drained(s, waiting);
        (after.settled(r), rest, r)
    }
}

/// The name of who sits at seat `i`, if somebody does.
pub open spec fn seat_name(seats: Seq<Option<PlayerSlotView>>, i: int) -> Option<Seq<char>> {
    if 0 <= i < seats.len() {
        match seats[i] {
            Some(s) => Some(s.name),
            None => None,
        }
    } else {
        None
    }
}

impl StateView {
    /// The game with every player named after who sits at its seat.
    pub open spec fn named(self, seats: Seq<Option<PlayerSlotView>>) -> StateView {
        StateView {
            players: Seq::new(
                self.players.len(),
                |i: int| PlayerView { name: seat_name(seats, i), ..self.players[i] },
            ),
            ..self
        }
    }
}

impl State {
    /// Names the players anew after those who sit at their seats, if a seat was
    /// given or freed since this was last done. A player whose seat is free, or
    /// whose seat does not exist, has no name.
    pub fn refresh_names(&mut self, slot_manager: &mut PlayerSlotManager)
        requires
            old(self)@.wf(),
        ensures
            final(self)@ == (if old(slot_manager).is_updated() {
                old(self)@.named(old(slot_manager).seats())
            } else {
                old(self)@
            }),
            final(self)@.wf(),
            final(slot_manager).seats() == old(slot_manager).seats(),
            !final(slot_manager).is_updated(),
    {
        if !slot_manager.consume_updated() {
            return ;
        }
        let n = self.players.len();
        let ghost seats = slot_manager.seats();
        let mut i: usize = 0;
        while i < n
            invariant
                i <= n,
                n == self.players.len(),
                n == old(self).players.len(),
                old(self)@.wf(),
                seats == slot_manager.seats(),
                self@ == (StateView { players: self@.players, ..old(self)@ }),
                forall|j: int|
                    0 <= j < i ==> #[trigger] self@.players[j] == old(self)@.named(seats).players[j],
                forall|j: int| i <= j < n ==> #[trigger] self@.players[j] == old(self)@.players[j],
            decreases n - i,
        {
            let name = if i < slot_manager.len() {
                match slot_manager.get(i) {
                    Some(slot) => Some(slot.name.clone()),
                    None => None,
                }
            } else {
                None
            };
            let ghost prev = self@;
            assert(self@.players[i as int] == self.players[i as int]@);
            self.players[i].name = name;
            proof {
                assert forall|j: int| 0 <= j < n implies #[trigger] self@.players[j] == (if j == i {
                    old(self)@.named(seats).players[j]
                } else {
                    prev.players[j]
                }) by {
                    assert(self@.players[j] == self.players[j]@);
                }
            }
            i += 1;
        }
        proof {
            assert(self@.players =~= old(self)@.named(seats).players);
            assert forall|j: int| 0 <= j < n implies (#[trigger] self@.players[j]).wf()
                && self@.players[j].id == old(self)@.players[j].id && self@.players[j].polynomios
                == old(self)@.players[j].polynomios by {
                assert(player_ok(old(self)@.players, old(self)@.polynomios, j));
            }
            lemma_wf_kept(old(self)@, self@);
        }
    }

    /// The command that a key pressed at this machine stands for.
    pub fn local_input(&self, input: Input) -> (r: UserInput)
        requires
            self@.wf(),
        ensures
            r == self@.local_input(input),
    {
        proof {
            if self.active_player_id < self.players.len() {
                assert(player_ok(self@.players, self@.polynomios, self.active_player_id as int));
            }
        }
        let host_player_id = if self.use_local_input {
            self.active_player_id as i32
        } else {
            self.my_player_id
        };
        UserInput { player_id: host_player_id, input, token: Some(0) }
    }

    /// Applies the commands of `queue` in their order until one of them is
    /// answered by something other than `Noop`, or none waits any more.
    pub fn drain(&mut self, queue: &mut InputQueue) -> (r: InputResult)
        requires
            old(self)@.wf(),
        ensures
            (final(self)@, final(queue)@.queue, r) == drained(old(self)@, old(queue)@.queue),
            final(queue)@.broadcast_requested == old(queue)@.broadcast_requested,
            final(self)@.wf(),
    {
        let mut input_result = InputResult::Noop;
        let mut done = false;
        while !done
            invariant
                self@.wf(),
                queue.broadcast_requested == old(queue).broadcast_requested,
                !done ==> drained(old(self)@, old(queue)@.queue) == drained(self@, queue@.queue),
                done ==> drained(old(self)@, old(queue)@.queue) == (
                    self@,
                    queue@.queue,
                    input_result,
                ),
            decreases queue@.queue.len() + (if done { 0int } else { 1int }),
        {
            match queue.pop() {
                Some(user_input) => {
                    input_result = player_input(self, user_input);
                    match input_result {
                        InputResult::Noop => {},
                        _ => {
                            done = true;
                        },
                    }
                },
                None => {
                    input_result = InputResult::Noop;
                    done = true;
                },
            }
        }
        input_result
    }

    /// Runs one round of the game loop. `key` is the command of the key that was
    /// pressed at this machine, if one was. The answer says whether the game has
    /// changed and so has to be shown and sent out anew; `UndoFailed` says that
    /// the log and the board disagree.
    pub fn tick(&mut self, queue: &mut InputQueue, key: Option<Input>) -> (r: InputResult)
        requires
            old(self)@.wf(),
        ensures
            (final(self)@, final(queue)@.queue, r) == old(self)@.ticked(old(queue)@.queue, key),
            final(queue)@.broadcast_requested == old(queue)@.broadcast_requested,
            final(self)@.wf(),
    {
        let mut stats = StatsCollectSystem { winner: 0 };
        if self.mode == Mode::Initialize {
            self.change_mode(Mode::Select);
            proof {
                lemma_wf_kept(old(self)@, self@);
            }
            stats.run(self);
        }
        match key {
            Some(input) => {
                let user_input = self.local_input(input);
                queue.push(user_input);
            },
            None => {},
        }
        let input_result = self.drain(queue);

        let mut polynomio_indexing_system = PolynomioIndexingSystem {  };
        polynomio_indexing_system.run(self);

        match input_result {
            InputResult::Updated { newmode, trigger } => {
                let ghost indexed = self@;
                self.change_mode(newmode);
                proof {
                    lemma_wf_kept(indexed, self@);
                }
                let mut stats = StatsCollectSystem { winner: self.winner };
                stats.run(self);
                self.winner = stats.winner;
            },
            _ => {},
        }
        input_result
    }
}

} // verus!
