//! Keeps the flag that a piece carries in step with its owner's record.

use vstd::prelude::*;
use crate::components::PlayerView;
use crate::components::PolynomioView;
use crate::state::lemma_wf_kept;
use crate::state::player_ok;
use crate::state::State;
use crate::state::StateView;

verus! {

/// Copies to every piece of a tray whether its owner counts it as laid.
pub struct PolynomioIndexingSystem {}

/// The pieces after the flags of the first `n` slots of a tray have been copied
/// to them, slot by slot.
pub open spec fn tray_indexed(
    pieces: Seq<PolynomioView>,
    tray: Seq<usize>,
    fixed: Seq<bool>,
    n: int,
) -> Seq<PolynomioView>
    decreases n,
{
    if n <= 0 {
        pieces
    } else {
        let prev = tray_indexed(pieces, tray, fixed, n - 1);
        let k = tray[n - 1] as int;
        prev.update(k, PolynomioView { fixed: fixed[n - 1], ..prev[k] })
    }
}

/// The pieces after the flags of the trays of the first `m` players have been
/// copied to them, seat by seat.
pub open spec fn all_indexed(pieces: Seq<PolynomioView>, players: Seq<PlayerView>, m: int) -> Seq<
    PolynomioView,
>
    decreases m,
{
    if m <= 0 {
        pieces
    } else {
        tray_indexed(
            all_indexed(pieces, players, m - 1),
            players[m - 1].polynomios,
            players[m - 1].fixed,
            players[m - 1].polynomios.len() as int,
        )
    }
}

impl StateView {
    /// The game with every piece flagged as its owner has it.
    pub open spec fn indexed(self) -> StateView {
        StateView {
            polynomios: all_indexed(self.polynomios, self.players, self.players.len() as int),
            ..self
        }
    }
}

/// Copying the flags of a tray changes nothing of a piece but its flag; a piece
/// that the tray does not hold keeps its flag, and a piece that the tray holds in
/// one slot only gets the flag of that slot.
pub proof fn lemma_tray_indexed(
    pieces: Seq<PolynomioView>,
    tray: Seq<usize>,
    fixed: Seq<bool>,
    n: int,
)
    requires
        0 <= n <= tray.len(),
        forall|k: int| 0 <= k < n ==> (#[trigger] tray[k]) < pieces.len(),
    ensures
        tray_indexed(pieces, tray, fixed, n).len() == pieces.len(),
        forall|i: int|
            0 <= i < pieces.len() ==> (#[trigger] tray_indexed(pieces, tray, fixed, n)[i])
                == (PolynomioView { fixed: tray_indexed(pieces, tray, fixed, n)[i].fixed, ..pieces[i] }),
        forall|i: int|
            0 <= i < pieces.len() && (forall|k: int| 0 <= k < n ==> #[trigger] tray[k] != i)
                ==> (#[trigger] tray_indexed(pieces, tray, fixed, n)[i]) == pieces[i],
        forall|k: int|
            0 <= k < n && (forall|l: int| k < l < n ==> #[trigger] tray[l] != tray[k])
                ==> tray_indexed(pieces, tray, fixed, n)[#[trigger] tray[k] as int].fixed == fixed[k],
    decreases n,
{
    if n > 0 {
        lemma_tray_indexed(pieces, tray, fixed, n - 1);
        let prev = tray_indexed(pieces, tray, fixed, n - 1);
        let now = tray_indexed(pieces, tray, fixed, n);
        assert(tray[n - 1] < pieces.len());
        assert forall|k: int|
            0 <= k < n && (forall|l: int| k < l < n ==> #[trigger] tray[l] != tray[k]) implies now[#[trigger] tray[k] as int].fixed
            == fixed[k] by {
            if k < n - 1 {
                assert(tray[n - 1] != tray[k]);
                assert forall|l: int| k < l < n - 1 implies #[trigger] tray[l] != tray[k] by {}
                assert(prev[tray[k] as int].fixed == fixed[k]);
            }
        }
    }
}

/// No piece is named twice, neither by two trays nor by two slots of a tray.
pub open spec fn named_once(players: Seq<PlayerView>) -> bool {
    forall|p: int, k: int, q: int, l: int|
        0 <= p < players.len() && 0 <= k < players[p].polynomios.len() && 0 <= q < players.len()
            && 0 <= l < players[q].polynomios.len() && (p != q || k != l)
            ==> #[trigger] players[p].polynomios[k] != #[trigger] players[q].polynomios[l]
}

/// The piece `i` stands in the tray of one of the first `m` players.
pub open spec fn named_by(players: Seq<PlayerView>, m: int, i: int) -> bool {
    exists|p: int, k: int|
        0 <= p < m && 0 <= k < players[p].polynomios.len() && #[trigger] players[p].polynomios[k]
            == i
}

proof fn lemma_all_indexed(pieces: Seq<PolynomioView>, players: Seq<PlayerView>, m: int)
    requires
        0 <= m <= players.len(),
        named_once(players),
        forall|p: int, k: int|
            0 <= p < players.len() && 0 <= k < players[p].polynomios.len()
                ==> (#[trigger] players[p].polynomios[k]) < pieces.len(),
        forall|p: int| 0 <= p < players.len() ==> (#[trigger] players[p]).wf(),
    ensures
        all_indexed(pieces, players, m).len() == pieces.len(),
        forall|p: int, k: int|
            0 <= p < m && 0 <= k < players[p].polynomios.len() ==> all_indexed(
                pieces,
                players,
                m,
            )[#[trigger] players[p].polynomios[k] as int] == (PolynomioView {
                fixed: players[p].fixed[k],
                ..pieces[players[p].polynomios[k] as int]
            }),
        forall|i: int|
            0 <= i < pieces.len() && !named_by(players, m, i) ==> #[trigger] all_indexed(
                pieces,
                players,
                m,
            )[i] == pieces[i],
    decreases m,
{
    if m > 0 {
        lemma_all_indexed(pieces, players, m - 1);
        let prev = all_indexed(pieces, players, m - 1);
        let now = all_indexed(pieces, players, m);
        let tray = players[m - 1].polynomios;
        let fixed = players[m - 1].fixed;
        let n = tray.len() as int;
        assert(players[m - 1].wf());
        assert forall|k: int| 0 <= k < n implies (#[trigger] tray[k]) < prev.len() by {
            assert(players[m - 1].polynomios[k] < pieces.len());
        }
        lemma_tray_indexed(prev, tray, fixed, n);
        assert forall|p: int, k: int|
            0 <= p < m && 0 <= k < players[p].polynomios.len() implies now[#[trigger] players[p].polynomios[k] as int]
            == (PolynomioView {
            fixed: players[p].fixed[k],
            ..pieces[players[p].polynomios[k] as int]
        }) by {
            let i = players[p].polynomios[k] as int;
            assert(players[p].polynomios[k] < pieces.len());
            if p == m - 1 {
                assert forall|l: int| k < l < n implies #[trigger] tray[l] != tray[k] by {
                    assert(players[m - 1].polynomios[l] != players[m - 1].polynomios[k]);
                }
                assert(now[tray[k] as int].fixed == fixed[k]);
                assert(!named_by(players, m - 1, i)) by {
                    if named_by(players, m - 1, i) {
                        let (q, l) = choose|q: int, l: int|
                            0 <= q < m - 1 && 0 <= l < players[q].polynomios.len()
                                && #[trigger] players[q].polynomios[l] == i;
                        assert(players[q].polynomios[l] != players[p].polynomios[k]);
                    }
                }
                assert(prev[i] == pieces[i]);
                assert(now[i] == PolynomioView { fixed: now[i].fixed, ..prev[i] });
            } else {
                assert forall|l: int| 0 <= l < n implies #[trigger] tray[l] != i by {
                    assert(players[m - 1].polynomios[l] != players[p].polynomios[k]);
                }
                assert(now[i] == prev[i]);
            }
        }
        assert forall|i: int| 0 <= i < pieces.len() && !named_by(players, m, i) implies #[trigger] now[i]
            == pieces[i] by {
            assert forall|l: int| 0 <= l < n implies #[trigger] tray[l] != i by {
                if tray[l] == i {
                    assert(players[m - 1].polynomios[l] == i);
                    assert(named_by(players, m, i));
                }
            }
            if named_by(players, m - 1, i) {
                let (q, l) = choose|q: int, l: int|
                    0 <= q < m - 1 && 0 <= l < players[q].polynomios.len()
                        && #[trigger] players[q].polynomios[l] == i;
                assert(named_by(players, m, i));
            }
            assert(now[i] == prev[i]);
        }
    }
}

/// What the copying of the flags comes to in a game in which no piece is named
/// twice: every piece that a tray names has the flag of its slot and is
/// otherwise as it was, and every other piece is as it was.
pub proof fn lemma_indexed(s: StateView)
    requires
        s.wf(),
        named_once(s.players),
    ensures
        s.indexed().polynomios.len() == s.polynomios.len(),
        forall|p: int, k: int|
            0 <= p < s.players.len() && 0 <= k < s.players[p].polynomios.len()
                ==> s.indexed().polynomios[#[trigger] s.players[p].polynomios[k] as int]
                == (PolynomioView {
                fixed: s.players[p].fixed[k],
                ..s.polynomios[s.players[p].polynomios[k] as int]
            }),
        forall|i: int|
            0 <= i < s.polynomios.len() && !named_by(s.players, s.players.len() as int, i)
                ==> #[trigger] s.indexed().polynomios[i] == s.polynomios[i],
{
    assert forall|p: int| 0 <= p < s.players.len() implies (#[trigger] s.players[p]).wf() by {
        assert(player_ok(s.players, s.polynomios, p));
    }
    assert forall|p: int, k: int|
        0 <= p < s.players.len() && 0 <= k < s.players[p].polynomios.len() implies (#[trigger] s.players[p].polynomios[k])
        < s.polynomios.len() by {
        assert(player_ok(s.players, s.polynomios, p));
    }
    lemma_all_indexed(s.polynomios, s.players, s.players.len() as int);
}

impl PolynomioIndexingSystem {
    /// Copies to every piece that a tray holds the flag of its slot, seat by
    /// seat and slot by slot.
    pub fn run(&mut self, gs: &mut State)
        requires
            old(gs)@.wf(),
        ensures
            final(gs)@ == old(gs)@.indexed(),
            final(gs)@.wf(),
    {
        let m = gs.players.len();
        let mut i: usize = 0;
        while i < m
            invariant
                i <= m,
                m == gs.players.len(),
                old(gs)@.wf(),
                gs@.wf(),
                gs@ == (StateView { polynomios: gs@.polynomios, ..old(gs)@ }),
                gs@.polynomios == all_indexed(old(gs)@.polynomios, old(gs)@.players, i as int),
            decreases m - i,
        {
            proof {
                assert(player_ok(gs@.players, gs@.polynomios, i as int));
                assert(gs@.players[i as int] == gs.players[i as int]@);
            }
            let n = gs.players[i].polynomios.len();
            let ghost start = gs@;
            let ghost tray = gs@.players[i as int].polynomios;
            let ghost fixed = gs@.players[i as int].fixed;
            let mut k: usize = 0;
            while k < n
                invariant
                    k <= n,
                    i < m,
                    m == gs.players.len(),
                    start.wf(),
                    gs@ == (StateView { polynomios: gs@.polynomios, ..start }),
                    tray == start.players[i as int].polynomios,
                    fixed == start.players[i as int].fixed,
                    n == tray.len(),
                    n == fixed.len(),
                    forall|j: int| 0 <= j < n ==> (#[trigger] tray[j]) < start.polynomios.len(),
                    gs@.polynomios == tray_indexed(start.polynomios, tray, fixed, k as int),
                decreases n - k,
            {
                proof {
                    assert(gs@.players[i as int] == gs.players[i as int]@);
                    lemma_tray_indexed(start.polynomios, tray, fixed, k as int);
                    assert(tray[k as int] < start.polynomios.len());
                }
                let fixed_flag = gs.players[i].fixed[k];
                let piece = gs.players[i].polynomios[k];
                let ghost prev = gs@.polynomios;
                assert(prev[piece as int] == gs.polynomios[piece as int]@);
                gs.polynomios[piece].fixed = fixed_flag;
                proof {
                    assert(gs@.polynomios =~= prev.update(
                        piece as int,
                        PolynomioView { fixed: fixed_flag, ..prev[piece as int] },
                    ));
                }
                k += 1;
            }
            proof {
                lemma_tray_indexed(start.polynomios, tray, fixed, n as int);
                assert forall|j: int| 0 <= j < gs@.polynomios.len() implies (#[trigger] gs@.polynomios[j]).wf()
                    && gs@.polynomios[j].coods.len() == start.polynomios[j].coods.len() by {
                    assert(start.polynomios[j].wf());
                }
                lemma_wf_kept(start, gs@);
            }
            i += 1;
        }
    }
}

} // verus!
