use rand::rngs::StdRng;
use rand::{Rng, SeedableRng};
use vstd::prelude::*;

use crate::error::{ids, GameError, GameStatus, PlayerId, RollValue};
use crate::gamble_game::GambleGame;
use crate::utils::{decimal_text, lines, push_decimal, push_lines};
use vstd::string::StringExecFns;

verus! {

/// Smallest stake a game can be created with.
pub const MIN_GOLD_AMOUNT: u64 = 100;

/// Smallest number of joined players a game can start with.
pub const MIN_AMOUNT_OF_PLAYERS: u64 = 2;

#[verifier::external_type_specification]
#[verifier::external_body]
pub struct ExStdRng(StdRng);

/// Relies on rand's `SeedableRng::from_os_rng`: a generator seeded from the
/// operating system. Nothing is known of its state.
#[verifier::external_body]
fn seeded_rng() -> StdRng {
    StdRng::from_os_rng()
}

/// Relies on rand's `Rng::random_range` over the non-empty inclusive range
/// `0..=max`: the sample lies in that range.
#[verifier::external_body]
fn draw(rng: &mut StdRng, max: u64) -> (r: u64)
    ensures
        r <= max,
{
    rng.random_range(0..=max)
}

/// Abstract state of one game.
pub struct GameView {
    pub status: GameStatus,
    /// The amount at risk, also the largest value a roll can take.
    pub stake: u64,
    /// Players who still have to roll (before the start: who joined).
    pub players: Seq<Seq<char>>,
    /// Rolls of the current sub-round, in the order they were made.
    pub rolls: Seq<(Seq<char>, u64)>,
    pub winner: Option<Seq<char>>,
    pub loser: Option<Seq<char>>,
    /// Highest roll of the first resolved sub-round.
    pub winning_roll: Option<u64>,
    /// Lowest roll of the first resolved sub-round.
    pub losing_roll: Option<u64>,
}

/// What a resolution step reports.
pub enum Advance {
    Status(GameStatus),
    TiedHigh(Seq<Seq<char>>),
    TiedLow(Seq<Seq<char>>),
    TiedBoth(Seq<Seq<char>>, Seq<Seq<char>>),
}

/// The highest value among `rolls` (0 for none).
pub open spec fn max_of(rolls: Seq<(Seq<char>, u64)>) -> u64
    decreases rolls.len(),
{
    if rolls.len() <= 1 {
        if rolls.len() == 0 { 0 } else { rolls[0].1 }
    } else {
        let m = max_of(rolls.drop_last());
        if rolls.last().1 > m { rolls.last().1 } else { m }
    }
}

/// The lowest value among `rolls` (0 for none).
pub open spec fn min_of(rolls: Seq<(Seq<char>, u64)>) -> u64
    decreases rolls.len(),
{
    if rolls.len() <= 1 {
        if rolls.len() == 0 { 0 } else { rolls[0].1 }
    } else {
        let m = min_of(rolls.drop_last());
        if rolls.last().1 < m { rolls.last().1 } else { m }
    }
}

/// The players who rolled `v`, in the order of their rolls.
pub open spec fn rolled(rolls: Seq<(Seq<char>, u64)>, v: u64) -> Seq<Seq<char>>
    decreases rolls.len(),
{
    if rolls.len() == 0 {
        Seq::empty()
    } else {
        let prev = rolled(rolls.drop_last(), v);
        if rolls.last().1 == v { prev.push(rolls.last().0) } else { prev }
    }
}

/// A fresh game created by `creator` for `stake`.
pub open spec fn fresh(creator: Seq<char>, stake: u64) -> GameView {
    GameView {
        status: GameStatus::INITIATED,
        stake,
        players: seq![creator],
        rolls: Seq::empty(),
        winner: None,
        loser: None,
        winning_roll: None,
        losing_roll: None,
    }
}

/// Outcome of a join request.
pub open spec fn join_outcome(g: GameView, p: Seq<char>) -> Result<(), GameError> {
    if g.status != GameStatus::INITIATED {
        Err(GameError::PlayerCannotJoinOngoingGame)
    } else if g.players.contains(p) {
        Err(GameError::PlayerAlreadyPartOfGame)
    } else {
        Ok(())
    }
}

/// State after a join request.
pub open spec fn after_join(g: GameView, p: Seq<char>) -> GameView {
    if join_outcome(g, p) is Ok {
        GameView { players: g.players.push(p), ..g }
    } else {
        g
    }
}

/// Outcome of a start request.
pub open spec fn start_outcome(g: GameView) -> Result<(), GameError> {
    if g.status != GameStatus::INITIATED {
        Err(GameError::CannotInitGame)
    } else if g.players.len() < MIN_AMOUNT_OF_PLAYERS {
        Err(GameError::NotEnoughPlayers(MIN_AMOUNT_OF_PLAYERS))
    } else {
        Ok(())
    }
}

/// State after a start request.
pub open spec fn after_start(g: GameView) -> GameView {
    if start_outcome(g) is Ok {
        GameView { status: GameStatus::ONGOING, ..g }
    } else {
        g
    }
}

/// `s` with every occurrence of `p` taken out.
pub open spec fn without(s: Seq<Seq<char>>, p: Seq<char>) -> Seq<Seq<char>>
    decreases s.len(),
{
    if s.len() == 0 {
        s
    } else {
        let prev = without(s.drop_last(), p);
        if s.last() == p { prev } else { prev.push(s.last()) }
    }
}

/// Whether `p` may roll now.
pub open spec fn can_roll(g: GameView, p: Seq<char>) -> bool {
    g.status == GameStatus::ONGOING && g.players.contains(p)
}

/// State after `p` rolled `v`: `p` leaves the players still to roll, and the
/// roll is recorded.
pub open spec fn after_roll(g: GameView, p: Seq<char>, v: u64) -> GameView {
    if can_roll(g, p) {
        GameView {
            players: without(g.players, p),
            rolls: g.rolls.push((p, v)),
            ..g
        }
    } else {
        g
    }
}

/// Whether a resolution step has anything to do: the game is ongoing and
/// everyone of the sub-round has rolled.
pub open spec fn ready(g: GameView) -> bool {
    g.status == GameStatus::ONGOING && g.players.len() == 0
}

/// One resolution step: the new state, and what it reports. Once a winner
/// and a loser are both known the game is done; otherwise the extreme that is
/// still open and tied is reported, and its players roll again (the lowest
/// group where both are).
pub open spec fn advance_view(g: GameView) -> (GameView, Advance) {
    if !ready(g) {
        (g, Advance::Status(g.status))
    } else {
        let hi = max_of(g.rolls);
        let lo = min_of(g.rolls);
        let w = rolled(g.rolls, hi);
        let l = rolled(g.rolls, lo);
        let winner = if g.winner is None && w.len() == 1 { Some(w[0]) } else { g.winner };
        let loser = if g.loser is None && l.len() == 1 { Some(l[0]) } else { g.loser };
        let high = g.winner is None && w.len() > 1;
        let low = g.loser is None && l.len() > 1;
        let base = GameView {
            rolls: Seq::empty(),
            winning_roll: if g.winning_roll is None { Some(hi) } else { g.winning_roll },
            losing_roll: if g.losing_roll is None { Some(lo) } else { g.losing_roll },
            winner,
            loser,
            ..g
        };
        if winner is Some && loser is Some {
            (GameView { status: GameStatus::DONE, ..base }, Advance::Status(GameStatus::DONE))
        } else if high && low {
            (GameView { players: l, ..base }, Advance::TiedBoth(w, l))
        } else if high {
            (GameView { players: w, ..base }, Advance::TiedHigh(w))
        } else {
            (GameView { players: l, ..base }, Advance::TiedLow(l))
        }
    }
}

/// Whether the result of a resolution step is what `a` reports.
pub open spec fn reports(r: Result<GameStatus, GameError>, a: Advance) -> bool {
    match a {
        Advance::Status(s) => r == Ok::<GameStatus, GameError>(s),
        Advance::TiedHigh(w) => r matches Err(GameError::PlayersMatchedHighestRoll(v)) && ids(v@)
            == w,
        Advance::TiedLow(l) => r matches Err(GameError::PlayersMatchedLowestRoll(v)) && ids(v@)
            == l,
        Advance::TiedBoth(w, l) => r matches Err(
            GameError::PlayersMatchedHighestAndLowestRoll(vw, vl),
        ) && ids(vw@) == w && ids(vl@) == l,
    }
}

/// The resolved triple `(winner, loser, margin)`, once both are known.
pub open spec fn resolution(g: GameView) -> Option<(Seq<char>, Seq<char>, u64)> {
    if g.winner is Some && g.loser is Some {
        Some((g.winner->0, g.loser->0, (g.winning_roll->0 - g.losing_roll->0) as u64))
    } else {
        None
    }
}

/// The snapshot of a game shown to the room.
pub open spec fn info_text(g: GameView) -> Seq<char> {
    match g.status {
        GameStatus::INITIATED => ":moneybag: __Ongoing Game!__\nFor **"@ + decimal_text(
            g.stake as nat,
        ) + "** gold!\n\n*Players who have already joined*\n"@ + (if g.players.len() > 0 {
            lines(g.players, "- <@"@, ">"@)
        } else {
            "- No players have joined yet"@
        }) + "\n\n*Next steps*\n- `g!join` to join\n- `g!play` to start the game"@,
        GameStatus::ONGOING => "Game is ongoing!\n"@ + lines(
            g.players,
            "- <@"@,
            "> still needs to roll! (i.e.: g!roll)"@,
        ),
        GameStatus::DONE => "<@"@ + g.loser->0 + "> owes <@"@ + g.winner->0 + "> "@
            + decimal_text(g.stake as nat) + " gold!"@,
    }
}

/// The players of a sub-round who rolled, in the order of their rolls.
pub open spec fn rollers(rolls: Seq<(Seq<char>, u64)>) -> Seq<Seq<char>> {
    rolls.map_values(|e: (Seq<char>, u64)| e.0)
}

/// The invariant of a game.
pub open spec fn valid(g: GameView) -> bool {
    &&& g.stake >= MIN_GOLD_AMOUNT
    &&& g.winning_roll is Some <==> g.losing_roll is Some
    &&& g.winning_roll is Some ==> g.losing_roll->0 <= g.winning_roll->0 <= g.stake
    &&& (g.winner is Some || g.loser is Some) ==> g.winning_roll is Some
    &&& g.status == GameStatus::DONE <==> (g.winner is Some && g.loser is Some)
    &&& g.winner is Some && g.loser is Some ==> g.winner->0 != g.loser->0
    &&& g.status == GameStatus::INITIATED ==> g.rolls.len() == 0 && g.winner is None
        && g.loser is None
    &&& g.status == GameStatus::ONGOING ==> g.players.len() + g.rolls.len() >= 2
    &&& forall|i: int| 0 <= i < g.rolls.len() ==> #[trigger] g.rolls[i].1 <= g.stake
    // Nobody is listed twice, nor both as still to roll and as rolled.
    &&& g.players.no_duplicates()
    &&& rollers(g.rolls).no_duplicates()
    &&& g.players.disjoint(rollers(g.rolls))
    // A known winner or loser takes no part in the sub-round that settles the other.
    &&& g.winner is Some && g.loser is None ==> !g.players.contains(g.winner->0) && !rollers(
        g.rolls,
    ).contains(g.winner->0)
    &&& g.loser is Some && g.winner is None ==> !g.players.contains(g.loser->0) && !rollers(
        g.rolls,
    ).contains(g.loser->0)
}

/// What taking `p` out of a list without repeats leaves.
proof fn lemma_without(s: Seq<Seq<char>>, p: Seq<char>)
    requires
        s.no_duplicates(),
    ensures
        without(s, p).no_duplicates(),
        forall|q: Seq<char>| #[trigger] without(s, p).contains(q) <==> (s.contains(q) && q != p),
        s.contains(p) ==> without(s, p).len() == s.len() - 1,
        !s.contains(p) ==> without(s, p).len() == s.len(),
    decreases s.len(),
{
    if s.len() > 0 {
        let d = s.drop_last();
        assert forall|q: Seq<char>| #[trigger] s.contains(q) <==> (d.contains(q) || q == s.last()) by {
            if s.contains(q) {
                let i = choose|i: int| 0 <= i < s.len() && s[i] == q;
                if i < d.len() {
                    assert(d[i] == q);
                }
            }
            if d.contains(q) {
                let i = choose|i: int| 0 <= i < d.len() && d[i] == q;
                assert(s[i] == q);
            }
            if q == s.last() {
                assert(s[s.len() - 1] == q);
            }
        }
        assert(!d.contains(s.last())) by {
            if d.contains(s.last()) {
                let i = choose|i: int| 0 <= i < d.len() && d[i] == s.last();
                assert(s[i] == s[s.len() - 1]);
            }
        }
        lemma_without(d, p);
        let prev = without(d, p);
        if s.last() != p {
            let r = prev.push(s.last());
            assert forall|q: Seq<char>| #[trigger] r.contains(q) <==> (prev.contains(q) || q
                == s.last()) by {
                if r.contains(q) {
                    let i = choose|i: int| 0 <= i < r.len() && r[i] == q;
                    if i < prev.len() {
                        assert(prev[i] == q);
                    }
                }
                if prev.contains(q) {
                    let i = choose|i: int| 0 <= i < prev.len() && prev[i] == q;
                    assert(r[i] == q);
                }
                if q == s.last() {
                    assert(r[r.len() - 1] == q);
                }
            }
            assert(!prev.contains(s.last()));
            assert forall|i: int, j: int| 0 <= i < r.len() && 0 <= j < r.len() && i != j implies r[i]
                != r[j] by {
                if i < prev.len() && j < prev.len() {
                    assert(r[i] == prev[i] && r[j] == prev[j]);
                } else if i < prev.len() {
                    assert(prev.contains(r[i]));
                } else if j < prev.len() {
                    assert(prev.contains(r[j]));
                }
            }
        }
    }
}

/// Everyone listed as having rolled `v` rolled it, and the list repeats
/// nobody when the sub-round does not.
proof fn lemma_rolled_members(rolls: Seq<(Seq<char>, u64)>, v: u64)
    ensures
        forall|x: Seq<char>| #[trigger] rolled(rolls, v).contains(x) ==> exists|i: int|
            0 <= i < rolls.len() && rolls[i].0 == x && rolls[i].1 == v,
        rollers(rolls).no_duplicates() ==> rolled(rolls, v).no_duplicates(),
    decreases rolls.len(),
{
    if rolls.len() > 0 {
        let d = rolls.drop_last();
        let n = rolls.len() - 1;
        lemma_rolled_members(d, v);
        let prev = rolled(d, v);
        assert forall|x: Seq<char>| #[trigger] rolled(rolls, v).contains(x) implies exists|i: int|
            0 <= i < rolls.len() && rolls[i].0 == x && rolls[i].1 == v by {
            let r = rolled(rolls, v);
            let k = choose|k: int| 0 <= k < r.len() && r[k] == x;
            if k < prev.len() {
                assert(prev[k] == x);
                assert(prev.contains(x));
                let i = choose|i: int| 0 <= i < d.len() && d[i].0 == x && d[i].1 == v;
                assert(rolls[i] == d[i]);
            } else {
                assert(rolls[n].0 == x && rolls[n].1 == v);
            }
        }
        if rollers(rolls).no_duplicates() {
            assert(rollers(d) =~= rollers(rolls).drop_last());
            if rolls.last().1 == v {
                let r = prev.push(rolls.last().0);
                assert(!prev.contains(rolls.last().0)) by {
                    if prev.contains(rolls.last().0) {
                        let i = choose|i: int|
                            0 <= i < d.len() && d[i].0 == rolls.last().0 && d[i].1 == v;
                        assert(rollers(rolls)[i] == rollers(rolls)[n]);
                    }
                }
                assert forall|i: int, j: int| 0 <= i < r.len() && 0 <= j < r.len() && i != j implies r[i]
                    != r[j] by {
                    if i < prev.len() && j < prev.len() {
                        assert(r[i] == prev[i] && r[j] == prev[j]);
                    } else if i < prev.len() {
                        assert(prev.contains(r[i]));
                    } else if j < prev.len() {
                        assert(prev.contains(r[j]));
                    }
                }
            }
        }
    }
}

/// Every roll lies between the lowest and the highest.
proof fn lemma_range(rolls: Seq<(Seq<char>, u64)>)
    ensures
        forall|i: int| 0 <= i < rolls.len() ==> min_of(rolls) <= #[trigger] rolls[i].1 <= max_of(
            rolls,
        ),
    decreases rolls.len(),
{
    if rolls.len() > 1 {
        let d = rolls.drop_last();
        lemma_range(d);
        assert forall|i: int| 0 <= i < rolls.len() implies min_of(rolls) <= #[trigger] rolls[i].1
            <= max_of(rolls) by {
            if i < d.len() {
                assert(rolls[i] == d[i]);
            }
        }
    }
}

/// A resolution step keeps a game valid.
proof fn lemma_step(g: GameView)
    requires
        valid(g),
        ready(g),
    ensures
        valid(advance_view(g).0),
{
    let rolls = g.rolls;
    let hi = max_of(rolls);
    let lo = min_of(rolls);
    let w = rolled(rolls, hi);
    let l = rolled(rolls, lo);
    let n = advance_view(g).0;
    lemma_extremes(rolls);
    lemma_rolled_members(rolls, hi);
    lemma_rolled_members(rolls, lo);
    lemma_range(rolls);
    let rs = rollers(rolls);
    // Each player has one roll in the sub-round.
    assert forall|i: int, j: int| 0 <= i < rolls.len() && 0 <= j < rolls.len() && rolls[i].0
        == rolls[j].0 implies i == j by {
        assert(rs[i] == rolls[i].0 && rs[j] == rolls[j].0);
    }
    // Who rolled an extreme rolled in the sub-round.
    assert forall|x: Seq<char>| w.contains(x) || l.contains(x) implies #[trigger] rs.contains(x) by {
        if w.contains(x) {
            let i = choose|i: int| 0 <= i < rolls.len() && rolls[i].0 == x && rolls[i].1 == hi;
            assert(rs[i] == x);
        } else {
            let i = choose|i: int| 0 <= i < rolls.len() && rolls[i].0 == x && rolls[i].1 == lo;
            assert(rs[i] == x);
        }
    }
    // Nobody holds both extremes unless everyone tied.
    assert forall|x: Seq<char>| w.contains(x) && l.contains(x) implies hi == lo by {
        let i = choose|i: int| 0 <= i < rolls.len() && rolls[i].0 == x && rolls[i].1 == hi;
        let j = choose|j: int| 0 <= j < rolls.len() && rolls[j].0 == x && rolls[j].1 == lo;
    }
    if hi == lo {
        assert forall|i: int| 0 <= i < rolls.len() implies #[trigger] rolls[i].1 == hi by {}
        lemma_all_same(rolls, hi);
        assert(w.len() == rolls.len());
    }
    assert(w.contains(w[0]));
    let i0 = choose|i: int| 0 <= i < rolls.len() && rolls[i].0 == w[0] && rolls[i].1 == hi;
    assert(hi <= g.stake);
    assert(l.contains(l[0]));
    assert(rollers(n.rolls) =~= Seq::<Seq<char>>::empty());
}

/// Whoever rolled `rolls[i]`'s value is listed among the players who rolled it.
proof fn lemma_rolled_nonempty(rolls: Seq<(Seq<char>, u64)>, i: int)
    requires
        0 <= i < rolls.len(),
    ensures
        rolled(rolls, rolls[i].1).len() > 0,
    decreases rolls.len(),
{
    if i < rolls.len() - 1 {
        lemma_rolled_nonempty(rolls.drop_last(), i);
    }
}

/// The extremes of a non-empty sub-round are values that were rolled, and
/// the highest is not below the lowest.
proof fn lemma_extremes(rolls: Seq<(Seq<char>, u64)>)
    requires
        rolls.len() > 0,
    ensures
        rolled(rolls, max_of(rolls)).len() > 0,
        rolled(rolls, min_of(rolls)).len() > 0,
        max_of(rolls) >= min_of(rolls),
    decreases rolls.len(),
{
    if rolls.len() == 1 {
        lemma_rolled_nonempty(rolls, 0);
    } else {
        let prev = rolls.drop_last();
        lemma_extremes(prev);
        let n = rolls.len() - 1;
        if rolls.last().1 > max_of(prev) {
            lemma_rolled_nonempty(rolls, n);
        } else {
            assert(rolled(rolls, max_of(rolls)).len() >= rolled(prev, max_of(prev)).len());
        }
        if rolls.last().1 < min_of(prev) {
            lemma_rolled_nonempty(rolls, n);
        } else {
            assert(rolled(rolls, min_of(rolls)).len() >= rolled(prev, min_of(prev)).len());
        }
    }
}

/// Nobody is left in `s` once taken out.
pub proof fn lemma_without_excludes(s: Seq<Seq<char>>, p: Seq<char>)
    ensures
        !without(s, p).contains(p),
    decreases s.len(),
{
    if s.len() > 0 {
        lemma_without_excludes(s.drop_last(), p);
        let prev = without(s.drop_last(), p);
        if s.last() != p {
            assert forall|j: int| 0 <= j < prev.len() + 1 implies prev.push(s.last())[j] != p by {
                if j < prev.len() {
                    assert(prev[j] != p);
                }
            }
        }
    }
}

/// State after `ps` join one after the other.
pub open spec fn after_joins(g: GameView, ps: Seq<Seq<char>>) -> GameView
    decreases ps.len(),
{
    if ps.len() == 0 {
        g
    } else {
        after_join(after_joins(g, ps.drop_last()), ps.last())
    }
}

proof fn lemma_joins_keep(g: GameView, ps: Seq<Seq<char>>, p: Seq<char>)
    requires
        g.status == GameStatus::INITIATED,
        g.players.contains(p),
    ensures
        after_joins(g, ps).status == GameStatus::INITIATED,
        after_joins(g, ps).players.contains(p),
    decreases ps.len(),
{
    if ps.len() > 0 {
        lemma_joins_keep(g, ps.drop_last(), p);
        let h = after_joins(g, ps.drop_last());
        if join_outcome(h, ps.last()) is Ok {
            let i = choose|i: int| 0 <= i < h.players.len() && h.players[i] == p;
            assert(h.players.push(ps.last())[i] == p);
        }
    }
}

/// A player who joined cannot join again, however many other players joined
/// in between.
pub proof fn lemma_join_twice_fails(g: GameView, p: Seq<char>, others: Seq<Seq<char>>)
    requires
        join_outcome(g, p) is Ok,
    ensures
        join_outcome(after_joins(after_join(g, p), others), p) == Err::<(), GameError>(
            GameError::PlayerAlreadyPartOfGame,
        ),
{
    let g1 = after_join(g, p);
    assert(g1.players[g.players.len() as int] == p);
    lemma_joins_keep(g1, others, p);
}

/// A game that has not started fails to start with fewer than two players;
/// with two or more it starts, and only once.
pub proof fn lemma_start_once(g: GameView)
    requires
        g.status == GameStatus::INITIATED,
    ensures
        g.players.len() < 2 ==> start_outcome(g) == Err::<(), GameError>(
            GameError::NotEnoughPlayers(2),
        ),
        g.players.len() >= 2 ==> start_outcome(g) is Ok && start_outcome(after_start(g)) == Err::<
            (),
            GameError,
        >(GameError::CannotInitGame),
{
}

/// A player rolls at most once per sub-round.
pub proof fn lemma_roll_once(g: GameView, p: Seq<char>, v: u64)
    requires
        can_roll(g, p),
    ensures
        !can_roll(after_roll(g, p, v), p),
{
    lemma_without_excludes(g.players, p);
}

/// While someone of the sub-round has still to roll, a resolution step
/// reports the status and changes nothing, however often it runs.
pub proof fn lemma_advance_waits(g: GameView)
    requires
        g.players.len() > 0,
    ensures
        advance_view(g) == (g, Advance::Status(g.status)),
        advance_view(advance_view(g).0) == advance_view(g),
{
}

proof fn lemma_all_same(rolls: Seq<(Seq<char>, u64)>, v: u64)
    requires
        rolls.len() > 0,
        forall|i: int| 0 <= i < rolls.len() ==> #[trigger] rolls[i].1 == v,
    ensures
        max_of(rolls) == v,
        min_of(rolls) == v,
        rolled(rolls, v) == rollers(rolls),
    decreases rolls.len(),
{
    if rolls.len() == 1 {
        assert(rolled(rolls.drop_last(), v) =~= Seq::<Seq<char>>::empty());
        assert(rollers(rolls) =~= seq![rolls[0].0]);
    } else {
        let prev = rolls.drop_last();
        assert(forall|i: int| 0 <= i < prev.len() ==> #[trigger] prev[i].1 == rolls[i].1);
        lemma_all_same(prev, v);
        assert(rollers(rolls) =~= rollers(prev).push(rolls.last().0));
    }
    if rolls.len() > 1 {
        let prev = rolls.drop_last();
        assert(rolled(rolls.drop_last(), v) == rollers(prev));
    } else {
        assert(rolled(rolls.drop_last(), v) =~= Seq::<Seq<char>>::empty());
    }
}

/// When every player of a first sub-round (two or more) rolled the same
/// value, both extremes tie over everyone, and everyone rolls again.
pub proof fn lemma_all_tied_replay(g: GameView, v: u64)
    requires
        ready(g),
        g.winner is None,
        g.loser is None,
        g.rolls.len() >= 2,
        forall|i: int| 0 <= i < g.rolls.len() ==> #[trigger] g.rolls[i].1 == v,
    ensures
        advance_view(g).1 == Advance::TiedBoth(rollers(g.rolls), rollers(g.rolls)),
        advance_view(g).0.players == rollers(g.rolls),
        advance_view(g).0.status == GameStatus::ONGOING,
{
    lemma_all_same(g.rolls, v);
    assert(rollers(g.rolls).len() == g.rolls.len());
}

/// When several players share the highest roll while no winner is known
/// (and the lowest is settled or not tied), the step reports exactly them,
/// each once, they alone roll again, and no winner is named.
pub proof fn lemma_high_tie(g: GameView)
    requires
        valid(g),
        ready(g),
        g.winner is None,
        rolled(g.rolls, max_of(g.rolls)).len() > 1,
        g.loser is Some || rolled(g.rolls, min_of(g.rolls)).len() <= 1,
    ensures
        advance_view(g).1 == Advance::TiedHigh(rolled(g.rolls, max_of(g.rolls))),
        advance_view(g).0.players == rolled(g.rolls, max_of(g.rolls)),
        advance_view(g).0.players.no_duplicates(),
        advance_view(g).0.rolls.len() == 0,
        advance_view(g).0.winner is None,
        advance_view(g).0.status == GameStatus::ONGOING,
{
    lemma_rolled_members(g.rolls, max_of(g.rolls));
}

/// A player who has rolled cannot roll again in the same sub-round, whatever
/// the others roll meanwhile and however often a step finds the sub-round
/// unfinished.
pub proof fn lemma_rolled_player_waits(g: GameView, p: Seq<char>, q: Seq<char>, v: u64)
    requires
        valid(g),
        !g.players.contains(p),
    ensures
        !can_roll(g, p),
        !after_roll(g, q, v).players.contains(p),
        !ready(g) ==> advance_view(g).0.players == g.players,
{
    lemma_without(g.players, q);
}

/// One game of the classic rule: highest roll wins, lowest roll loses, ties
/// reroll among the tied players.
pub struct GambleClassic {
    players_by_roll: Vec<(PlayerId, RollValue)>,
    players: Vec<PlayerId>,
    status: GameStatus,
    rng: StdRng,
    winner: Option<PlayerId>,
    winning_roll: Option<RollValue>,
    loser: Option<PlayerId>,
    losing_roll: Option<RollValue>,
    max_roll: RollValue,
}

/// The view of an optional player identifier.
pub open spec fn opt_id(o: Option<PlayerId>) -> Option<Seq<char>> {
    match o {
        Some(s) => Some(s@),
        None => None,
    }
}

impl View for GambleClassic {
    type V = GameView;

    closed spec fn view(&self) -> GameView {
        GameView {
            status: self.status,
            stake: self.max_roll,
            players: ids(self.players@),
            rolls: self.players_by_roll@.map_values(|e: (PlayerId, RollValue)| (e.0@, e.1)),
            winner: opt_id(self.winner),
            loser: opt_id(self.loser),
            winning_roll: self.winning_roll,
            losing_roll: self.losing_roll,
        }
    }
}

impl GambleClassic {
    /// A new game for `max_roll_value`, joined by its creator; refused when
    /// the stake is below the minimum.
    pub fn new(player_id: PlayerId, max_roll_value: u64) -> (r: Result<Self, GameError>)
        ensures
            max_roll_value < MIN_GOLD_AMOUNT ==> r == Err::<Self, GameError>(
                GameError::GoldAmountTooSmall(MIN_GOLD_AMOUNT),
            ),
            max_roll_value >= MIN_GOLD_AMOUNT ==> r is Ok && r->Ok_0@ == fresh(
                player_id@,
                max_roll_value,
            ) && valid(r->Ok_0@),
            max_roll_value >= MIN_GOLD_AMOUNT ==> r->Ok_0@.stake == max_roll_value
                && r->Ok_0@.status == GameStatus::INITIATED,
    {
        if max_roll_value < MIN_GOLD_AMOUNT {
            return Err(GameError::GoldAmountTooSmall(MIN_GOLD_AMOUNT));
        }
        let game = GambleClassic {
            players_by_roll: Vec::new(),
            players: vec![player_id],
            status: GameStatus::INITIATED,
            rng: seeded_rng(),
            winner: None,
            winning_roll: None,
            loser: None,
            losing_roll: None,
            max_roll: max_roll_value,
        };
        assert(game@.players =~= seq![player_id@]);
        assert(game@.rolls =~= Seq::<(Seq<char>, u64)>::empty());
        Ok(game)
    }

    /// Whether `player_id` still has to roll (or, before the start, joined).
    fn has_player(&self, player_id: &PlayerId) -> (r: bool)
        ensures
            r == self@.players.contains(player_id@),
    {
        let mut i: usize = 0;
        while i < self.players.len()
            invariant
                0 <= i <= self.players.len(),
                forall|j: int| 0 <= j < i ==> self@.players[j] != player_id@,
                self@.players == ids(self.players@),
            decreases self.players.len() - i,
        {
            if self.players[i] == *player_id {
                assert(self@.players[i as int] == player_id@);
                return true;
            }
            i += 1;
        }
        false
    }


    /// A copy of a list of player identifiers.
    fn copy_ids(v: &Vec<PlayerId>) -> (r: Vec<PlayerId>)
        ensures
            ids(r@) == ids(v@),
    {
        let mut r: Vec<PlayerId> = Vec::new();
        let mut i: usize = 0;
        while i < v.len()
            invariant
                0 <= i <= v.len(),
                ids(r@) == ids(v@).subrange(0, i as int),
            decreases v.len() - i,
        {
            let ghost before = r@;
            r.push(v[i].clone());
            assert(ids(r@) =~= ids(before).push(v@[i as int]@));
            assert(ids(r@) =~= ids(v@).subrange(0, i + 1));
            i += 1;
        }
        assert(ids(v@).subrange(0, v.len() as int) =~= ids(v@));
        r
    }

    /// Takes `player_id` out of the players still to roll.
    fn remove_player(&mut self, player_id: &PlayerId)
        ensures
            final(self)@ == (GameView { players: without(old(self)@.players, player_id@), ..old(self)@ }),
    {
        let ghost all = self@.players;
        let mut kept: Vec<PlayerId> = Vec::new();
        let mut i: usize = 0;
        while i < self.players.len()
            invariant
                0 <= i <= self.players.len(),
                all == ids(self.players@),
                ids(kept@) == without(all.subrange(0, i as int), player_id@),
            decreases self.players.len() - i,
        {
            assert(all.subrange(0, i + 1).drop_last() =~= all.subrange(0, i as int));
            if !(self.players[i] == *player_id) {
                kept.push(self.players[i].clone());
                assert(ids(kept@) =~= without(all.subrange(0, i + 1), player_id@));
            }
            i += 1;
        }
        assert(all.subrange(0, self.players.len() as int) =~= all);
        self.players = kept;
    }

    /// Records the roll `roll_value` for `player_id`: the roll that the die
    /// gave, or one chosen by the caller.
    pub fn roll_with(&mut self, player_id: PlayerId, roll_value: RollValue) -> (r: Result<
        RollValue,
        GameError,
    >)
        requires
            valid(old(self)@),
            roll_value <= old(self)@.stake,
        ensures
            can_roll(old(self)@, player_id@) ==> r == Ok::<RollValue, GameError>(roll_value),
            !can_roll(old(self)@, player_id@) ==> r == Err::<RollValue, GameError>(
                GameError::PlayerCannotRoll,
            ),
            final(self)@ == after_roll(old(self)@, player_id@, roll_value),
            valid(final(self)@),
    {
        if self.status != GameStatus::ONGOING || !self.has_player(&player_id) {
            return Err(GameError::PlayerCannotRoll);
        }
        let ghost g = self@;
        proof {
            lemma_without(g.players, player_id@);
        }
        self.remove_player(&player_id);
        let ghost before = self@.rolls;
        self.players_by_roll.push((player_id, roll_value));
        assert(self@.rolls =~= before.push((player_id@, roll_value)));
        proof {
            let p = player_id@;
            let n = self@;
            assert(rollers(n.rolls) =~= rollers(g.rolls).push(p));
            assert(!rollers(g.rolls).contains(p)) by {
                let i = choose|i: int| 0 <= i < g.players.len() && g.players[i] == p;
                if rollers(g.rolls).contains(p) {
                    let j = choose|j: int| 0 <= j < rollers(g.rolls).len() && rollers(g.rolls)[j] == p;
                }
            }
            assert forall|i: int, j: int| 0 <= i < n.players.len() && 0 <= j < rollers(n.rolls).len()
                implies n.players[i] != rollers(n.rolls)[j] by {
                assert(n.players.contains(n.players[i]));
                assert(g.players.contains(n.players[i]));
                let k = choose|k: int| 0 <= k < g.players.len() && g.players[k] == n.players[i];
                if j < rollers(g.rolls).len() {
                    assert(rollers(n.rolls)[j] == rollers(g.rolls)[j]);
                }
            }
            assert forall|i: int, j: int| 0 <= i < rollers(n.rolls).len() && 0 <= j < rollers(n.rolls).len() && i != j
                implies rollers(n.rolls)[i] != rollers(n.rolls)[j] by {
                if i < rollers(g.rolls).len() && j < rollers(g.rolls).len() {
                } else if i < rollers(g.rolls).len() {
                    assert(rollers(g.rolls).contains(rollers(n.rolls)[i]));
                } else if j < rollers(g.rolls).len() {
                    assert(rollers(g.rolls).contains(rollers(n.rolls)[j]));
                }
            }
            if g.winner is Some && g.loser is None {
                let x = g.winner->0;
                if rollers(n.rolls).contains(x) {
                    let j = choose|j: int| 0 <= j < rollers(n.rolls).len() && rollers(n.rolls)[j] == x;
                    if j < rollers(g.rolls).len() {
                        assert(rollers(g.rolls)[j] == x);
                    } else {
                        let i = choose|i: int| 0 <= i < g.players.len() && g.players[i] == p;
                    }
                }
            }
            if g.loser is Some && g.winner is None {
                let x = g.loser->0;
                if rollers(n.rolls).contains(x) {
                    let j = choose|j: int| 0 <= j < rollers(n.rolls).len() && rollers(n.rolls)[j] == x;
                    if j < rollers(g.rolls).len() {
                        assert(rollers(g.rolls)[j] == x);
                    } else {
                        let i = choose|i: int| 0 <= i < g.players.len() && g.players[i] == p;
                    }
                }
            }
        }
        Ok(roll_value)
    }


    /// Highest and lowest value of the current sub-round.
    fn extremes(&self) -> (r: (RollValue, RollValue))
        requires
            self@.rolls.len() > 0,
        ensures
            r.0 == max_of(self@.rolls),
            r.1 == min_of(self@.rolls),
    {
        let ghost rv = self@.rolls;
        let mut hi: RollValue = self.players_by_roll[0].1;
        let mut lo: RollValue = self.players_by_roll[0].1;
        let mut i: usize = 1;
        assert(rv.subrange(0, 1).len() == 1);
        while i < self.players_by_roll.len()
            invariant
                1 <= i <= self.players_by_roll.len(),
                rv == self@.rolls,
                hi == max_of(rv.subrange(0, i as int)),
                lo == min_of(rv.subrange(0, i as int)),
            decreases self.players_by_roll.len() - i,
        {
            let v = self.players_by_roll[i].1;
            assert(rv.subrange(0, i + 1).drop_last() =~= rv.subrange(0, i as int));
            assert(rv.subrange(0, i + 1).last() == rv[i as int]);
            if v > hi {
                hi = v;
            }
            if v < lo {
                lo = v;
            }
            i += 1;
        }
        assert(rv.subrange(0, i as int) =~= rv);
        (hi, lo)
    }

    /// The players of the current sub-round who rolled `value`, in order.
    fn players_rolled(&self, value: RollValue) -> (r: Vec<PlayerId>)
        ensures
            ids(r@) == rolled(self@.rolls, value),
    {
        let ghost rv = self@.rolls;
        let mut r: Vec<PlayerId> = Vec::new();
        let mut i: usize = 0;
        while i < self.players_by_roll.len()
            invariant
                0 <= i <= self.players_by_roll.len(),
                rv == self@.rolls,
                ids(r@) == rolled(rv.subrange(0, i as int), value),
            decreases self.players_by_roll.len() - i,
        {
            assert(rv.subrange(0, i + 1).drop_last() =~= rv.subrange(0, i as int));
            assert(rv.subrange(0, i + 1).last() == rv[i as int]);
            if self.players_by_roll[i].1 == value {
                r.push(self.players_by_roll[i].0.clone());
                assert(ids(r@) =~= rolled(rv.subrange(0, i + 1), value));
            }
            i += 1;
        }
        assert(rv.subrange(0, i as int) =~= rv);
        r
    }




    /// The stake, also the largest value a roll can take.
    pub fn stake(&self) -> (r: u64)
        ensures
            r == self@.stake,
    {
        self.max_roll
    }

    /// The players who still have to roll (before the start: who joined).
    pub fn players(&self) -> (r: Vec<PlayerId>)
        ensures
            ids(r@) == self@.players,
    {
        Self::copy_ids(&self.players)
    }

    /// The winner, once known.
    pub fn winner(&self) -> (r: Option<PlayerId>)
        ensures
            opt_id(r) == self@.winner,
    {
        match &self.winner {
            Some(w) => Some(w.clone()),
            None => None,
        }
    }

    /// The loser, once known.
    pub fn loser(&self) -> (r: Option<PlayerId>)
        ensures
            opt_id(r) == self@.loser,
    {
        match &self.loser {
            Some(l) => Some(l.clone()),
            None => None,
        }
    }

    /// Current status.
    pub fn status(&self) -> (r: GameStatus)
        ensures
            r == self@.status,
    {
        self.status
    }
}

impl GambleGame for GambleClassic {
    fn add_player(&mut self, player_id: PlayerId) -> (r: Result<(), GameError>)
    {
        if self.status != GameStatus::INITIATED {
            return Err(GameError::PlayerCannotJoinOngoingGame);
        }
        if self.has_player(&player_id) {
            return Err(GameError::PlayerAlreadyPartOfGame);
        }
        self.players.push(player_id);
        assert(self@.players =~= old(self)@.players.push(player_id@));
        Ok(())
    }

    fn start(&mut self) -> (r: Result<(), GameError>)
    {
        if self.status != GameStatus::INITIATED {
            return Err(GameError::CannotInitGame);
        }
        if (self.players.len() as u64) < MIN_AMOUNT_OF_PLAYERS {
            return Err(GameError::NotEnoughPlayers(MIN_AMOUNT_OF_PLAYERS));
        }
        self.status = GameStatus::ONGOING;
        Ok(())
    }

    fn roll(&mut self, player_id: PlayerId) -> (r: Result<RollValue, GameError>)
    {
        if self.status != GameStatus::ONGOING || !self.has_player(&player_id) {
            return Err(GameError::PlayerCannotRoll);
        }
        let value = draw(&mut self.rng, self.max_roll);
        self.roll_with(player_id, value)
    }

    fn update(&mut self) -> (r: Result<GameStatus, GameError>) {
        if self.status != GameStatus::ONGOING || self.players.len() != 0 {
            return Ok(self.status);
        }
        let ghost g = self@;
        let (hi, lo) = self.extremes();
        let winners = self.players_rolled(hi);
        let losers = self.players_rolled(lo);
        proof {
            lemma_extremes(g.rolls);
            lemma_step(g);
        }
        let high = self.winner.is_none() && winners.len() > 1;
        let low = self.loser.is_none() && losers.len() > 1;
        if self.winning_roll.is_none() {
            self.winning_roll = Some(hi);
        }
        if self.losing_roll.is_none() {
            self.losing_roll = Some(lo);
        }
        self.players_by_roll = Vec::new();
        if self.winner.is_none() && winners.len() == 1 {
            self.winner = Some(winners[0].clone());
        }
        if self.loser.is_none() && losers.len() == 1 {
            self.loser = Some(losers[0].clone());
        }
        assert(self@.rolls =~= Seq::<(Seq<char>, u64)>::empty());
        if self.winner.is_some() && self.loser.is_some() {
            self.status = GameStatus::DONE;
            return Ok(GameStatus::DONE);
        }
        if high && low {
            self.players = Self::copy_ids(&losers);
            Err(GameError::PlayersMatchedHighestAndLowestRoll(winners, losers))
        } else if high {
            self.players = Self::copy_ids(&winners);
            Err(GameError::PlayersMatchedHighestRoll(winners))
        } else {
            self.players = Self::copy_ids(&losers);
            Err(GameError::PlayersMatchedLowestRoll(losers))
        }
    }

    fn info(&self) -> (r: String)
    {
        let mut r = String::new();
        match self.status {
            GameStatus::INITIATED => {
                r.append(":moneybag: __Ongoing Game!__\nFor **");
                push_decimal(&mut r, self.max_roll);
                r.append("** gold!\n\n*Players who have already joined*\n");
                if self.players.len() > 0 {
                    push_lines(&mut r, &self.players, "- <@", ">");
                } else {
                    r.append("- No players have joined yet");
                }
                r.append("\n\n*Next steps*\n- `g!join` to join\n- `g!play` to start the game");
            },
            GameStatus::ONGOING => {
                r.append("Game is ongoing!\n");
                push_lines(&mut r, &self.players, "- <@", "> still needs to roll! (i.e.: g!roll)");
            },
            GameStatus::DONE => {
                if let (Some(w), Some(l)) = (&self.winner, &self.loser) {
                    r.append("<@");
                    r.append(l.as_str());
                    r.append("> owes <@");
                    r.append(w.as_str());
                    r.append("> ");
                    push_decimal(&mut r, self.max_roll);
                    r.append(" gold!");
                }
            },
        }
        assert(r@ =~= info_text(self@));
        r
    }

    fn wl(&self) -> (r: Option<(PlayerId, PlayerId, RollValue)>)
    {
        match (&self.winner, &self.loser) {
            (Some(w), Some(l)) => {
                let margin = self.winning_roll.unwrap() - self.losing_roll.unwrap();
                Some((w.clone(), l.clone(), margin))
            },
            _ => None,
        }
    }
}

} // verus!
