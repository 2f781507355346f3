use vstd::prelude::*;

verus! {

/// Identifier of a player, as handed over by the chat surface.
pub type PlayerId = String;

/// Value of one roll of the die.
pub type RollValue = u64;

/// Lifecycle of one game: `Initiated -> Ongoing -> Done`.
#[derive(PartialEq, Eq, Structural, Clone, Copy, Debug)]
pub enum GameStatus {
    INITIATED,
    ONGOING,
    DONE,
}

/// Everything that an action on a game or on the registry can report
/// instead of a plain result. The `PlayersMatched...` variants are tie-break
/// signals: the game state has moved on and the listed players must reroll.
#[derive(Debug, Clone, PartialEq, Eq)]
pub enum GameError {
    CannotInitGame,
    GameAlreadyExists,
    NotEnoughPlayers(u64),
    GoldAmountTooSmall(u64),
    PlayerCannotRollOnAnInexistentGame,
    PlayerCannotRequestInfoOnInexistentGame,
    PlayerCannotPlayOnInexistentGame,
    PlayerCannotJoinAnInexistentGame,
    PlayerCannotJoinOngoingGame,
    PlayerAlreadyPartOfGame,
    PlayerCannotRoll,
    PlayerAlreadyRolled,
    PlayersMatchedLowestRoll(Vec<PlayerId>),
    PlayersMatchedHighestRoll(Vec<PlayerId>),
    /// Both extremes were tied in the same resolution step: highest first,
    /// then lowest. The lowest group is the one that rerolls.
    PlayersMatchedHighestAndLowestRoll(Vec<PlayerId>, Vec<PlayerId>),
    NoWinnersFound,
    UnknownCommand,
}

/// The views of a list of player identifiers.
pub open spec fn ids(v: Seq<PlayerId>) -> Seq<Seq<char>> {
    v.map_values(|s: PlayerId| s@)
}

} // verus!
