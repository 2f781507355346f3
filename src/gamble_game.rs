use vstd::prelude::*;

use crate::error::{GameError, GameStatus, PlayerId, RollValue};
use crate::gamble_classic::{
    advance_view, after_join, after_roll, after_start, can_roll, info_text, join_outcome, reports,
    resolution, start_outcome, valid, GameView,
};

verus! {

/// A game of gamble played in one room, seen through its abstract state.
pub trait GambleGame: View<V = GameView> + Sized {
    /// Adds a player before the start.
    fn add_player(&mut self, player_id: PlayerId) -> (r: Result<(), GameError>)
        requires
            valid(old(self)@),
        ensures
            r == join_outcome(old(self)@, player_id@),
            final(self)@ == after_join(old(self)@, player_id@),
            valid(final(self)@),
    ;

    /// Starts the game once enough players joined.
    fn start(&mut self) -> (r: Result<(), GameError>)
        requires
            valid(old(self)@),
        ensures
            r == start_outcome(old(self)@),
            final(self)@ == after_start(old(self)@),
            valid(final(self)@),
    ;

    /// Rolls the die over `[0, stake]` for `player_id`.
    fn roll(&mut self, player_id: PlayerId) -> (r: Result<RollValue, GameError>)
        requires
            valid(old(self)@),
        ensures
            can_roll(old(self)@, player_id@) ==> r is Ok && r->Ok_0 <= old(self)@.stake
                && final(self)@ == after_roll(old(self)@, player_id@, r->Ok_0),
            !can_roll(old(self)@, player_id@) ==> r == Err::<RollValue, GameError>(
                GameError::PlayerCannotRoll,
            ) && final(self)@ == old(self)@,
            valid(final(self)@),
    ;

    /// One resolution step, safe to call at any time: it acts only once
    /// everyone of the sub-round has rolled. The highest and lowest rolls of
    /// the first resolved sub-round are kept for good; a winner or a loser,
    /// once known, is kept too, and the game is done as soon as both are.
    /// Otherwise the open extreme that is tied is reported and its players
    /// reroll among themselves (the lowest group where both extremes are).
    fn update(&mut self) -> (r: Result<GameStatus, GameError>)
        requires
            valid(old(self)@),
        ensures
            final(self)@ == advance_view(old(self)@).0,
            reports(r, advance_view(old(self)@).1),
            valid(final(self)@),
    ;

    /// The snapshot of the game shown to the room.
    fn info(&self) -> (r: String)
        requires
            valid(self@),
        ensures
            r@ == info_text(self@),
    ;

    /// The winner, the loser and the margin between the first sub-round's
    /// highest and lowest rolls, once both players are known.
    fn wl(&self) -> (r: Option<(PlayerId, PlayerId, RollValue)>)
        requires
            valid(self@),
        ensures
            match r {
                Some(t) => resolution(self@) == Some((t.0@, t.1@, t.2)) && t.0@ != t.1@ && t.2
                    <= self@.stake,
                None => resolution(self@) is None,
            },
            r is Some <==> self@.status == GameStatus::DONE,
    ;
}

} // verus!
