//! The score: how many cells each player has left, and who leads.

use vstd::prelude::*;
use crate::components::PlayerView;
use crate::state::free_tiles;
use crate::state::lemma_free_tiles_bound;
use crate::state::lemma_wf_kept;
use crate::state::player_ok;
use crate::state::State;
use crate::state::StateView;

verus! {

/// Counts the cells that each player has left and ranks the players by them.
pub struct StatsCollectSystem {
    pub winner: usize,
}

impl StateView {
    /// The number of cells of the pieces of player `i` that do not lie on the
    /// board.
    pub open spec fn total_of(self, i: int) -> int {
        free_tiles(
            self.players[i].polynomios,
            self.players[i].fixed,
            self.polynomios,
            self.players[i].polynomios.len() as int,
        )
    }

    /// Player `j` stands before player `i`: it has fewer cells left, or as many
    /// and the higher seat.
    pub open spec fn beats(self, j: int, i: int) -> bool {
        self.total_of(j) < self.total_of(i) || (self.total_of(j) == self.total_of(i) && j > i)
    }

    /// How many of the first `n` players stand before player `i`.
    pub open spec fn beaten_by(self, i: int, n: int) -> int
        decreases n,
    {
        if n <= 0 {
            0
        } else {
            self.beaten_by(i, n - 1) + if self.beats(n - 1, i) {
                1int
            } else {
                0int
            }
        }
    }

    /// The place of player `i`, the first place being 1.
    pub open spec fn rank_of(self, i: int) -> int {
        1 + self.beaten_by(i, self.players.len() as int)
    }

    /// The one of the first `n` players, `n` at least 1, who stands before the
    /// others.
    pub open spec fn leader(self, n: int) -> int
        decreases n,
    {
        if n <= 1 {
            0
        } else {
            let best = self.leader(n - 1);
            if self.beats(n - 1, best) {
                n - 1
            } else {
                best
            }
        }
    }

    /// The game with every player's count of cells and place written down.
    pub open spec fn scored(self) -> StateView {
        StateView {
            players: Seq::new(
                self.players.len(),
                |i: int|
                    PlayerView {
                        remaining_tiles: self.total_of(i) as i32,
                        rank: self.rank_of(i) as i32,
                        ..self.players[i]
                    },
            ),
            ..self
        }
    }
}

/// The leader among the first `n` players is one of them and stands before
/// each of the others.
pub proof fn lemma_leader(s: StateView, n: int)
    requires
        1 <= n,
    ensures
        0 <= s.leader(n) < n,
        forall|j: int| 0 <= j < n && j != s.leader(n) ==> #[trigger] s.beats(s.leader(n), j),
    decreases n,
{
    if n > 1 {
        lemma_leader(s, n - 1);
        let best = s.leader(n - 1);
        assert forall|j: int| 0 <= j < n && j != s.leader(n) implies #[trigger] s.beats(
            s.leader(n),
            j,
        ) by {
            if j < n - 1 && j != best {
                assert(s.beats(best, j));
            }
        }
    }
}

/// Nobody stands before the leader, so the leader's place is the first.
pub proof fn lemma_leader_is_first(s: StateView)
    requires
        s.players.len() >= 1,
    ensures
        s.rank_of(s.leader(s.players.len() as int)) == 1,
{
    let n = s.players.len() as int;
    lemma_leader(s, n);
    lemma_beaten_by_none(s, s.leader(n), n);
}

proof fn lemma_beaten_by_none(s: StateView, w: int, n: int)
    requires
        forall|j: int| 0 <= j < n && j != w ==> #[trigger] s.beats(w, j),
    ensures
        s.beaten_by(w, n) == 0,
    decreases n,
{
    if n > 0 {
        lemma_beaten_by_none(s, w, n - 1);
        if n - 1 != w {
            assert(s.beats(w, n - 1));
        }
    }
}

impl StatsCollectSystem {
    /// The number of cells that player `i` has left.
    fn total(gs: &State, i: usize) -> (total: i32)
        requires
            gs@.wf(),
            i < gs.players.len(),
        ensures
            total == gs@.total_of(i as int),
    {
        proof {
            assert(player_ok(gs@.players, gs@.polynomios, i as int));
            assert(gs@.players[i as int] == gs.players[i as int]@);
        }
        let player = &gs.players[i];
        let n = player.polynomios.len();
        let ghost tray = player@.polynomios;
        let ghost fixed = player@.fixed;
        let mut total: i32 = 0;
        let mut k: usize = 0;
        while k < n
            invariant
                k <= n,
                n == tray.len(),
                n == fixed.len(),
                tray == player.polynomios@,
                fixed == player.fixed@,
                gs@.wf(),
                forall|j: int| 0 <= j < n ==> (#[trigger] tray[j]) < gs.polynomios.len(),
                crate::state::tiles(tray, gs@.polynomios, n as int) <= i32::MAX,
                total == free_tiles(tray, fixed, gs@.polynomios, k as int),
            decreases n - k,
        {
            proof {
                lemma_free_tiles_bound(tray, fixed, gs@.polynomios, k + 1);
                lemma_free_tiles_bound(tray, fixed, gs@.polynomios, n as int);
                lemma_free_tiles_bound(tray, fixed, gs@.polynomios, k as int);
                assert(tray[k as int] < gs.polynomios.len());
                assert(gs@.polynomios[tray[k as int] as int] == gs.polynomios[tray[k as int] as int]@);
            }
            if !player.fixed[k] {
                total += gs.polynomios[player.polynomios[k]].coods.len() as i32;
            }
            k += 1;
        }
        total
    }

    /// Writes to every player how many cells it has left and its place, and
    /// keeps the seat of the leader. Without players there is no leader, and the
    /// seat kept stays as it was.
    pub fn run(&mut self, gs: &mut State)
        requires
            old(gs)@.wf(),
        ensures
            final(gs)@ == old(gs)@.scored(),
            final(gs)@.wf(),
            old(gs)@.players.len() > 0 ==> final(self).winner == old(gs)@.leader(
                old(gs)@.players.len() as int,
            ),
            old(gs)@.players.len() == 0 ==> final(self).winner == old(self).winner,
    {
        let n = gs.players.len();
        let mut totals: Vec<i32> = Vec::new();
        let mut i: usize = 0;
        while i < n
            invariant
                i <= n,
                n == gs.players.len(),
                gs@ == old(gs)@,
                gs@.wf(),
                totals.len() == i,
                forall|j: int| 0 <= j < i ==> #[trigger] totals[j] == gs@.total_of(j),
            decreases n - i,
        {
            let total = Self::total(gs, i);
            totals.push(total);
            i += 1;
        }
        let mut best: usize = 0;
        let mut i: usize = 0;
        while i < n
            invariant
                i <= n,
                n == gs.players.len(),
                gs@ == old(gs)@,
                gs@.wf(),
                gs.players@ == old(gs).players@,
                totals.len() == n,
                forall|j: int| 0 <= j < n ==> #[trigger] totals[j] == old(gs)@.total_of(j),
                i > 0 ==> best == old(gs)@.leader(i as int),
                i == 0 ==> best == 0,
                best < n || n == 0,
            decreases n - i,
        {
            proof {
                if i > 0 {
                    lemma_leader(old(gs)@, i as int);
                }
            }
            if i > 0 && (totals[i] < totals[best] || (totals[i] == totals[best] && i > best)) {
                best = i;
            }
            i += 1;
        }
        let mut i: usize = 0;
        while i < n
            invariant
                i <= n,
                n == gs.players.len(),
                n == old(gs).players.len(),
                old(gs)@.wf(),
                totals.len() == n,
                forall|j: int| 0 <= j < n ==> #[trigger] totals[j] == old(gs)@.total_of(j),
                gs@ == (StateView { players: gs@.players, ..old(gs)@ }),
                forall|j: int| 0 <= j < i ==> #[trigger] gs@.players[j] == old(gs)@.scored().players[j],
                forall|j: int| i <= j < n ==> #[trigger] gs@.players[j] == old(gs)@.players[j],
            decreases n - i,
        {
            let mut before: usize = 0;
            let mut j: usize = 0;
            while j < n
                invariant
                    j <= n,
                    i < n,
                    totals.len() == n,
                    forall|j: int| 0 <= j < n ==> #[trigger] totals[j] == old(gs)@.total_of(j),
                    before == old(gs)@.beaten_by(i as int, j as int),
                    before <= j,
                    j > i ==> before < j,
                decreases n - j,
            {
                if totals[j] < totals[i] || (totals[j] == totals[i] && j > i) {
                    before += 1;
                }
                j += 1;
            }
            proof {
                assert(player_ok(old(gs)@.players, old(gs)@.polynomios, (n - 1) as int));
                assert(gs@.players[i as int] == gs.players[i as int]@);
            }
            let ghost prev = gs@;
            gs.players[i].remaining_tiles = totals[i];
            gs.players[i].rank = (before + 1) as i32;
            proof {
                assert forall|j: int| 0 <= j < n implies #[trigger] gs@.players[j] == (if j == i {
                    old(gs)@.scored().players[j]
                } else {
                    prev.players[j]
                }) by {
                    assert(gs@.players[j] == gs.players[j]@);
                }
            }
            i += 1;
        }
        proof {
            assert(gs@.players =~= old(gs)@.scored().players);
            assert forall|j: int| 0 <= j < n implies (#[trigger] gs@.players[j]).wf()
                && gs@.players[j].id == old(gs)@.players[j].id && gs@.players[j].polynomios == old(gs)@.players[j].polynomios by {
                assert(player_ok(old(gs)@.players, old(gs)@.polynomios, j));
            }
            lemma_wf_kept(old(gs)@, gs@);
        }
        if n > 0 {
            self.winner = best;
        }
    }
}

} // verus!
