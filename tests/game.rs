use gamble::{GambleClassic, GambleGame, GameError, GameStatus};

fn s(x: &str) -> String {
    x.to_string()
}

fn started(players: &[&str], stake: u64) -> GambleClassic {
    let mut g = GambleClassic::new(s(players[0]), stake).unwrap();
    for p in &players[1..] {
        g.add_player(s(p)).unwrap();
    }
    g.start().unwrap();
    g
}

#[test]
fn fresh_game_keeps_stake_and_is_initiated() {
    for stake in [100u64, 101, 1000, u64::MAX] {
        let g = GambleClassic::new(s("a"), stake).unwrap();
        assert_eq!(g.stake(), stake);
        assert_eq!(g.status(), GameStatus::INITIATED);
        assert_eq!(g.players(), vec![s("a")]);
        assert!(g.wl().is_none());
    }
}

#[test]
fn stake_below_minimum_is_refused() {
    assert_eq!(GambleClassic::new(s("a"), 99).err(), Some(GameError::GoldAmountTooSmall(100)));
    assert_eq!(GambleClassic::new(s("a"), 0).err(), Some(GameError::GoldAmountTooSmall(100)));
}

#[test]
fn joining_twice_fails_whoever_joined_between() {
    let mut g = GambleClassic::new(s("a"), 500).unwrap();
    assert_eq!(g.add_player(s("b")), Ok(()));
    assert_eq!(g.add_player(s("c")), Ok(()));
    assert_eq!(g.add_player(s("d")), Ok(()));
    assert_eq!(g.add_player(s("b")), Err(GameError::PlayerAlreadyPartOfGame));
    assert_eq!(g.add_player(s("a")), Err(GameError::PlayerAlreadyPartOfGame));
    assert_eq!(g.players(), vec![s("a"), s("b"), s("c"), s("d")]);
}

#[test]
fn join_after_start_fails() {
    let mut g = started(&["a", "b"], 500);
    assert_eq!(g.add_player(s("c")), Err(GameError::PlayerCannotJoinOngoingGame));
}

#[test]
fn start_needs_two_players_and_happens_once() {
    let mut g = GambleClassic::new(s("a"), 500).unwrap();
    assert_eq!(g.start(), Err(GameError::NotEnoughPlayers(2)));
    assert_eq!(g.status(), GameStatus::INITIATED);
    g.add_player(s("b")).unwrap();
    assert_eq!(g.start(), Ok(()));
    assert_eq!(g.status(), GameStatus::ONGOING);
    assert_eq!(g.start(), Err(GameError::CannotInitGame));
}

#[test]
fn a_player_rolls_once_per_sub_round() {
    let mut g = started(&["a", "b"], 500);
    assert_eq!(g.roll_with(s("a"), 10), Ok(10));
    assert_eq!(g.roll_with(s("a"), 20), Err(GameError::PlayerCannotRoll));
    assert_eq!(g.roll(s("a")), Err(GameError::PlayerCannotRoll));
    assert_eq!(g.players(), vec![s("b")]);
}

#[test]
fn rolling_before_start_or_as_outsider_fails() {
    let mut g = GambleClassic::new(s("a"), 500).unwrap();
    assert_eq!(g.roll(s("a")), Err(GameError::PlayerCannotRoll));
    g.add_player(s("b")).unwrap();
    g.start().unwrap();
    assert_eq!(g.roll_with(s("z"), 1), Err(GameError::PlayerCannotRoll));
}

#[test]
fn die_rolls_within_stake() {
    for _ in 0..50 {
        let mut g = started(&["a", "b"], 100);
        let v = g.roll(s("a")).unwrap();
        assert!(v <= 100);
        assert_eq!(g.players(), vec![s("b")]);
    }
}

#[test]
fn advance_waits_until_everyone_rolled() {
    let mut g = started(&["a", "b", "c"], 500);
    assert_eq!(g.update(), Ok(GameStatus::ONGOING));
    g.roll_with(s("b"), 7).unwrap();
    for _ in 0..3 {
        assert_eq!(g.update(), Ok(GameStatus::ONGOING));
        assert_eq!(g.players(), vec![s("a"), s("c")]);
        assert!(g.wl().is_none());
    }
    let mut fresh = GambleClassic::new(s("a"), 500).unwrap();
    assert_eq!(fresh.update(), Ok(GameStatus::INITIATED));
}

#[test]
fn highest_wins_lowest_loses() {
    let mut g = started(&["a", "b"], 1000);
    g.roll_with(s("a"), 1000).unwrap();
    g.roll_with(s("b"), 0).unwrap();
    assert_eq!(g.update(), Ok(GameStatus::DONE));
    assert_eq!(g.status(), GameStatus::DONE);
    assert_eq!(g.wl(), Some((s("a"), s("b"), 1000)));
    assert_eq!(g.update(), Ok(GameStatus::DONE));
}

#[test]
fn tied_highest_rerolls_among_the_tied() {
    let mut g = started(&["a", "b", "c", "d"], 1000);
    g.roll_with(s("a"), 700).unwrap();
    g.roll_with(s("d"), 5).unwrap();
    g.roll_with(s("b"), 700).unwrap();
    g.roll_with(s("c"), 700).unwrap();
    assert_eq!(
        g.update(),
        Err(GameError::PlayersMatchedHighestRoll(vec![s("a"), s("b"), s("c")]))
    );
    assert_eq!(g.players(), vec![s("a"), s("b"), s("c")]);
    assert_eq!(g.winner(), None);
    assert_eq!(g.loser(), Some(s("d")));
    assert_eq!(g.status(), GameStatus::ONGOING);
    g.roll_with(s("a"), 10).unwrap();
    g.roll_with(s("b"), 30).unwrap();
    g.roll_with(s("c"), 20).unwrap();
    assert_eq!(g.update(), Ok(GameStatus::DONE));
    // The margin is that of the first sub-round.
    assert_eq!(g.wl(), Some((s("b"), s("d"), 695)));
}

#[test]
fn tied_lowest_rerolls_among_the_tied() {
    let mut g = started(&["a", "b", "c"], 1000);
    g.roll_with(s("a"), 900).unwrap();
    g.roll_with(s("b"), 1).unwrap();
    g.roll_with(s("c"), 1).unwrap();
    assert_eq!(g.update(), Err(GameError::PlayersMatchedLowestRoll(vec![s("b"), s("c")])));
    assert_eq!(g.winner(), Some(s("a")));
    assert_eq!(g.players(), vec![s("b"), s("c")]);
    g.roll_with(s("b"), 3).unwrap();
    g.roll_with(s("c"), 2).unwrap();
    assert_eq!(g.update(), Ok(GameStatus::DONE));
    assert_eq!(g.wl(), Some((s("a"), s("c"), 899)));
}

#[test]
fn everyone_tied_replays_the_sub_round() {
    let mut g = started(&["a", "b", "c"], 1000);
    g.roll_with(s("c"), 42).unwrap();
    g.roll_with(s("a"), 42).unwrap();
    g.roll_with(s("b"), 42).unwrap();
    let all = vec![s("c"), s("a"), s("b")];
    assert_eq!(
        g.update(),
        Err(GameError::PlayersMatchedHighestAndLowestRoll(all.clone(), all.clone()))
    );
    assert_eq!(g.players(), all);
    assert_eq!(g.winner(), None);
    assert_eq!(g.loser(), None);
    assert_eq!(g.status(), GameStatus::ONGOING);
}

#[test]
fn both_extremes_tied_lowest_group_rerolls() {
    let mut g = started(&["a", "b", "c", "d"], 1000);
    g.roll_with(s("a"), 900).unwrap();
    g.roll_with(s("b"), 900).unwrap();
    g.roll_with(s("c"), 1).unwrap();
    g.roll_with(s("d"), 1).unwrap();
    assert_eq!(
        g.update(),
        Err(GameError::PlayersMatchedHighestAndLowestRoll(
            vec![s("a"), s("b")],
            vec![s("c"), s("d")]
        ))
    );
    assert_eq!(g.players(), vec![s("c"), s("d")]);
}

#[test]
fn info_before_start() {
    let mut g = GambleClassic::new(s("1"), 1500).unwrap();
    g.add_player(s("2")).unwrap();
    assert_eq!(
        g.info(),
        ":moneybag: __Ongoing Game!__\nFor **1500** gold!\n\n*Players who have already joined*\n- <@1>\n- <@2>\n\n*Next steps*\n- `g!join` to join\n- `g!play` to start the game"
    );
}

#[test]
fn info_while_rolling_and_when_done() {
    let mut g = started(&["1", "2"], 300);
    g.roll_with(s("1"), 200).unwrap();
    assert_eq!(g.info(), "Game is ongoing!\n- <@2> still needs to roll! (i.e.: g!roll)");
    g.roll_with(s("2"), 100).unwrap();
    g.update().unwrap();
    assert_eq!(g.info(), "<@2> owes <@1> 300 gold!");
}

#[test]
fn game_is_done_once_winner_and_loser_are_known() {
    let mut g = started(&["a", "c", "d", "e"], 1000);
    g.roll_with(s("a"), 900).unwrap();
    g.roll_with(s("c"), 1).unwrap();
    g.roll_with(s("d"), 1).unwrap();
    g.roll_with(s("e"), 1).unwrap();
    assert_eq!(
        g.update(),
        Err(GameError::PlayersMatchedLowestRoll(vec![s("c"), s("d"), s("e")]))
    );
    assert_eq!(g.winner(), Some(s("a")));
    assert!(g.wl().is_none());
    g.roll_with(s("c"), 5).unwrap();
    g.roll_with(s("d"), 5).unwrap();
    g.roll_with(s("e"), 1).unwrap();
    // The tie between c and d decides nothing: the winner is already known.
    assert_eq!(g.update(), Ok(GameStatus::DONE));
    assert_eq!(g.status(), GameStatus::DONE);
    assert_eq!(g.wl(), Some((s("a"), s("e"), 899)));
}

#[test]
fn no_result_before_the_game_is_done() {
    let mut g = started(&["a", "b", "c"], 1000);
    g.roll_with(s("a"), 500).unwrap();
    g.roll_with(s("b"), 500).unwrap();
    g.roll_with(s("c"), 2).unwrap();
    assert_eq!(g.update(), Err(GameError::PlayersMatchedHighestRoll(vec![s("a"), s("b")])));
    assert_eq!(g.loser(), Some(s("c")));
    assert_eq!(g.status(), GameStatus::ONGOING);
    assert!(g.wl().is_none());
}

#[test]
fn rolled_player_waits_while_others_roll() {
    let mut g = started(&["a", "b", "c"], 500);
    assert_eq!(g.roll_with(s("a"), 10), Ok(10));
    assert_eq!(g.update(), Ok(GameStatus::ONGOING));
    assert_eq!(g.roll_with(s("b"), 20), Ok(20));
    assert_eq!(g.update(), Ok(GameStatus::ONGOING));
    assert_eq!(g.roll_with(s("a"), 30), Err(GameError::PlayerCannotRoll));
    assert_eq!(g.roll(s("a")), Err(GameError::PlayerCannotRoll));
    assert_eq!(g.players(), vec![s("c")]);
}
