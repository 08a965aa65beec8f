//! What the game records so that a move can be taken back.

use vstd::prelude::*;
use crate::components::PlayerView;
use crate::state::event_ok;
use crate::state::lemma_wf_kept;
use crate::state::State;
use crate::state::StateView;

verus! {

/// The player at seat `player_entity` laid the piece at slot `polynomio_id` of
/// its tray.
#[derive(Clone, Copy, Debug, PartialEq, Eq, Structural)]
pub struct PutEvent {
    pub player_entity: usize,
    pub polynomio_id: usize,
}

/// The turn passed on from seat `from`.
#[derive(Clone, Copy, Debug, PartialEq, Eq, Structural)]
pub struct TurnChangeEvent {
    pub from: usize,
}

/// The player at seat `player_entity` left the game.
#[derive(Clone, Copy, Debug, PartialEq, Eq, Structural)]
pub struct GiveUpEvent {
    pub player_entity: usize,
}

/// One entry of the log.
#[derive(Clone, Copy, Debug, PartialEq, Eq, Structural)]
pub enum Event {
    Put(PutEvent),
    TurnChange(TurnChangeEvent),
    GiveUp(GiveUpEvent),
}

impl PutEvent {
    /// Takes the piece off the board and puts it back in its owner's tray.
    pub fn undo(&self, gs: &mut State)
        requires
            old(gs)@.wf(),
            event_ok(old(gs)@.players, Event::Put(*self)),
            old(gs)@.put_undoable(*self),
        ensures
            final(gs)@ == old(gs)@.put_undone(*self),
            final(gs)@.wf(),
    {
        let seat = self.player_entity;
        let slot = self.polynomio_id;
        proof {
            assert(crate::state::player_ok(old(gs)@.players, old(gs)@.polynomios, seat as int));
            assert(old(gs)@.players[seat as int] == old(gs).players[seat as int]@);
            assert(old(gs)@.players[seat as int].polynomios[slot as int] < old(gs).polynomios.len());
        }
        let k = gs.players[seat].polynomios[slot];
        assert(old(gs)@.polynomios[k as int] == old(gs).polynomios[k as int]@);
        let px: i64 = gs.positions[k].x as i64 - gs.map.x as i64;
        let py: i64 = gs.positions[k].y as i64 - gs.map.y as i64;
        let id = gs.players[seat].id;
        let removed = gs.map.try_remove_at(px, py, &gs.polynomios[k].coods, id);
        assert(removed);
        gs.players[seat].fixed[slot] = false;
        gs.players[seat].select = slot;
        gs.players[seat].end = false;
        gs.positions[k].reset();
        gs.polynomios[k].reset();
        proof {
            let after = old(gs)@.put_undone(*self);
            assert(gs@.players =~= after.players);
            assert(gs@.polynomios =~= after.polynomios);
            assert(gs@.positions =~= after.positions);
            assert(old(gs)@.polynomios[k as int].wf());
            lemma_wf_kept(old(gs)@, gs@);
        }
    }

    /// Whether taking this entry back takes the entry below it back as well.
    pub fn should_chain_next(&self) -> (r: bool)
        ensures
            !r,
    {
        false
    }
}

impl TurnChangeEvent {
    /// Gives the turn back to the seat it came from.
    pub fn undo(&self, gs: &mut State)
        requires
            old(gs)@.wf(),
            event_ok(old(gs)@.players, Event::TurnChange(*self)),
        ensures
            final(gs)@ == (StateView { active_player_id: self.from, ..old(gs)@ }),
            final(gs)@.wf(),
    {
        gs.active_player_id = self.from;
    }

    /// Whether taking this entry back takes the entry below it back as well.
    pub fn should_chain_next(&self) -> (r: bool)
        ensures
            r,
    {
        true
    }
}

impl GiveUpEvent {
    /// Lets the player play again.
    pub fn undo(&self, gs: &mut State)
        requires
            old(gs)@.wf(),
            event_ok(old(gs)@.players, Event::GiveUp(*self)),
        ensures
            final(gs)@ == old(gs)@.with_player(
                self.player_entity as int,
                PlayerView { end: false, ..old(gs)@.players[self.player_entity as int] },
            ),
            final(gs)@.wf(),
    {
        assert(old(gs)@.players[self.player_entity as int] == old(gs).players[self.player_entity as int]@);
        gs.players[self.player_entity].end = false;
        proof {
            let after = old(gs)@.with_player(
                self.player_entity as int,
                PlayerView { end: false, ..old(gs)@.players[self.player_entity as int] },
            );
            assert(gs@.players =~= after.players);
            assert(crate::state::player_ok(
                old(gs)@.players,
                old(gs)@.polynomios,
                self.player_entity as int,
            ));
            lemma_wf_kept(old(gs)@, gs@);
        }
    }

    /// Whether taking this entry back takes the entry below it back as well.
    pub fn should_chain_next(&self) -> (r: bool)
        ensures
            !r,
    {
        false
    }
}

impl Event {
    /// Whether taking this entry back takes the entry below it back as well.
    pub open spec fn chains(self) -> bool {
        self is TurnChange
    }

    /// Takes the entry back.
    pub fn undo(&self, gs: &mut State)
        requires
            old(gs)@.wf(),
            event_ok(old(gs)@.players, *self),
            old(gs)@.event_undoable(*self),
        ensures
            final(gs)@ == old(gs)@.event_undone(*self),
            final(gs)@.wf(),
    {
        match self {
            Event::Put(e) => e.undo(gs),
            Event::TurnChange(e) => e.undo(gs),
            Event::GiveUp(e) => e.undo(gs),
        }
    }

    /// Whether taking this entry back takes the entry below it back as well.
    pub fn should_chain_next(&self) -> (r: bool)
        ensures
            r == self.chains(),
    {
        match self {
            Event::Put(e) => e.should_chain_next(),
            Event::TurnChange(e) => e.should_chain_next(),
            Event::GiveUp(e) => e.should_chain_next(),
        }
    }
}

} // verus!
