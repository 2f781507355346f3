use gamble::{parse_stake, GGMResponse, GambleGameManager, GameError, HELP};

fn s(x: &str) -> String {
    x.to_string()
}

fn ok_create(m: &mut GambleGameManager, room: &str, user: &str, stake: u64) {
    assert_eq!(m.create(s(room), s(user), stake), Ok(GGMResponse::ShowJoinInfo));
}

/// Plays the game of `room` between `a` and `b` to its end and returns the
/// resolved triple.
fn play_out(m: &mut GambleGameManager, room: &str, a: &str, b: &str) -> (String, String, u64) {
    loop {
        for p in [a, b] {
            // After a tie only the tied players may roll again.
            let _ = m.roll(s(room), s(p));
        }
        match m.tick(s(room)) {
            Ok(GGMResponse::Done(t)) => return t,
            Ok(GGMResponse::Empty) => {}
            Err(GameError::PlayersMatchedHighestAndLowestRoll(_, _)) => {}
            Err(GameError::PlayersMatchedHighestRoll(_)) => {}
            Err(GameError::PlayersMatchedLowestRoll(_)) => {}
            other => panic!("unexpected {:?}", other),
        }
    }
}

#[test]
fn create_on_taken_room_fails() {
    let mut m = GambleGameManager::default();
    ok_create(&mut m, "room", "a", 500);
    assert_eq!(m.create(s("room"), s("b"), 500), Err(GameError::GameAlreadyExists));
    assert_eq!(m.create(s("room"), s("b"), 5), Err(GameError::GameAlreadyExists));
    ok_create(&mut m, "other", "b", 500);
}

#[test]
fn create_with_low_stake_fails_and_leaves_room_free() {
    let mut m = GambleGameManager::new();
    assert_eq!(m.create(s("room"), s("a"), 99), Err(GameError::GoldAmountTooSmall(100)));
    ok_create(&mut m, "room", "a", 100);
}

#[test]
fn actions_on_room_without_game_fail() {
    let mut m = GambleGameManager::new();
    assert_eq!(m.join(s("r"), s("a")), Err(GameError::PlayerCannotJoinAnInexistentGame));
    assert_eq!(m.play(s("r")), Err(GameError::PlayerCannotPlayOnInexistentGame));
    assert_eq!(m.roll(s("r"), s("a")), Err(GameError::PlayerCannotRollOnAnInexistentGame));
    assert_eq!(m.info(s("r")), Err(GameError::PlayerCannotRequestInfoOnInexistentGame));
}

#[test]
fn tick_without_game_is_empty() {
    let mut m = GambleGameManager::new();
    for _ in 0..3 {
        assert_eq!(m.tick(s("nowhere")), Ok(GGMResponse::Empty));
    }
    ok_create(&mut m, "room", "a", 500);
    assert_eq!(m.tick(s("nowhere")), Ok(GGMResponse::Empty));
}

#[test]
fn actions_are_forwarded_to_the_game() {
    let mut m = GambleGameManager::new();
    ok_create(&mut m, "room", "a", 500);
    assert_eq!(m.play(s("room")), Err(GameError::NotEnoughPlayers(2)));
    assert_eq!(m.join(s("room"), s("b")), Ok(GGMResponse::Empty));
    assert_eq!(m.join(s("room"), s("b")), Err(GameError::PlayerAlreadyPartOfGame));
    assert_eq!(m.roll(s("room"), s("a")), Err(GameError::PlayerCannotRoll));
    assert_eq!(m.play(s("room")), Ok(GGMResponse::Started));
    assert_eq!(m.play(s("room")), Err(GameError::CannotInitGame));
    match m.roll(s("room"), s("a")) {
        Ok(GGMResponse::PlayerRolled(v)) => assert!(v <= 500),
        other => panic!("unexpected {:?}", other),
    }
    assert_eq!(m.tick(s("room")), Ok(GGMResponse::Empty));
    assert_eq!(m.roll(s("room"), s("a")), Err(GameError::PlayerCannotRoll));
}

#[test]
fn finished_game_frees_its_room() {
    let mut m = GambleGameManager::new();
    ok_create(&mut m, "room", "a", 1000);
    m.join(s("room"), s("b")).unwrap();
    m.play(s("room")).unwrap();
    let (w, l, margin) = play_out(&mut m, "room", "a", "b");
    assert!(w != l);
    assert!(w == "a" || w == "b");
    assert!(l == "a" || l == "b");
    assert!(margin <= 1000);
    assert_eq!(m.tick(s("room")), Ok(GGMResponse::Empty));
    assert_eq!(m.info(s("room")), Err(GameError::PlayerCannotRequestInfoOnInexistentGame));
    ok_create(&mut m, "room", "c", 200);
}

#[test]
fn info_shows_the_game() {
    let mut m = GambleGameManager::new();
    ok_create(&mut m, "room", "7", 2000);
    assert_eq!(
        m.info(s("room")),
        Ok(GGMResponse::ShowGeneralInfo(s(
            ":moneybag: __Ongoing Game!__\nFor **2000** gold!\n\n*Players who have already joined*\n- <@7>\n\n*Next steps*\n- `g!join` to join\n- `g!play` to start the game"
        )))
    );
}

#[test]
fn execute_routes_commands() {
    let mut m = GambleGameManager::new();
    assert_eq!(m.execute(s("r"), s("a"), "g!create", vec!["500"]), Ok(GGMResponse::ShowJoinInfo));
    assert_eq!(m.execute(s("r"), s("b"), "g!join", vec![]), Ok(GGMResponse::Empty));
    assert_eq!(m.execute(s("r"), s("b"), "g!play", vec![]), Ok(GGMResponse::Started));
    match m.execute(s("r"), s("b"), "g!roll", vec![]) {
        Ok(GGMResponse::PlayerRolled(v)) => assert!(v <= 500),
        other => panic!("unexpected {:?}", other),
    }
    assert!(matches!(m.execute(s("r"), s("b"), "g!info", vec![]), Ok(GGMResponse::ShowGeneralInfo(_))));
    assert_eq!(
        m.execute(s("r"), s("b"), "g!help", vec![]),
        Ok(GGMResponse::Message(s(HELP)))
    );
    assert_eq!(m.execute(s("r"), s("b"), "g!dance", vec![]), Err(GameError::UnknownCommand));
    assert_eq!(m.execute(s("r"), s("b"), "G!ROLL", vec![]), Err(GameError::UnknownCommand));
}

#[test]
fn execute_create_reads_the_stake() {
    let mut m = GambleGameManager::new();
    assert_eq!(
        m.execute(s("r"), s("a"), "g!create", vec![]),
        Err(GameError::GoldAmountTooSmall(100))
    );
    assert_eq!(
        m.execute(s("r"), s("a"), "g!create", vec!["lots"]),
        Err(GameError::GoldAmountTooSmall(100))
    );
    assert_eq!(
        m.execute(s("r"), s("a"), "g!create", vec!["18446744073709551616"]),
        Err(GameError::GoldAmountTooSmall(100))
    );
    assert_eq!(
        m.execute(s("r"), s("a"), "g!create", vec!["+250", "extra"]),
        Ok(GGMResponse::ShowJoinInfo)
    );
}

#[test]
fn stake_argument_parsing() {
    assert_eq!(parse_stake("0"), 0);
    assert_eq!(parse_stake("250"), 250);
    assert_eq!(parse_stake("+250"), 250);
    assert_eq!(parse_stake("007"), 7);
    assert_eq!(parse_stake("18446744073709551615"), u64::MAX);
    assert_eq!(parse_stake("18446744073709551616"), 0);
    assert_eq!(parse_stake(""), 0);
    assert_eq!(parse_stake("+"), 0);
    assert_eq!(parse_stake("-5"), 0);
    assert_eq!(parse_stake("12a"), 0);
    assert_eq!(parse_stake(" 12"), 0);
    for x in ["1", "99", "100", "123456789", "+42", "18446744073709551615"] {
        assert_eq!(parse_stake(x), x.parse::<u64>().unwrap());
    }
}

#[test]
fn room_stays_free_through_other_actions() {
    let mut m = GambleGameManager::new();
    ok_create(&mut m, "room", "a", 1000);
    m.join(s("room"), s("b")).unwrap();
    m.play(s("room")).unwrap();
    play_out(&mut m, "room", "a", "b");
    ok_create(&mut m, "elsewhere", "x", 300);
    assert_eq!(m.join(s("room"), s("a")), Err(GameError::PlayerCannotJoinAnInexistentGame));
    assert_eq!(m.roll(s("room"), s("a")), Err(GameError::PlayerCannotRollOnAnInexistentGame));
    assert_eq!(m.tick(s("room")), Ok(GGMResponse::Empty));
    assert_eq!(m.join(s("elsewhere"), s("y")), Ok(GGMResponse::Empty));
    ok_create(&mut m, "room", "c", 200);
}
