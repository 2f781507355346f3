use gamble::{
    build_matched_roll_message, fmt_amount, map_game_error_to_discord_message,
    map_ggm_response_to_discord_message, GGMResponse, GameError,
};

fn s(x: &str) -> String {
    x.to_string()
}

#[test]
fn amounts_are_grouped_by_three() {
    assert_eq!(fmt_amount(0), "0");
    assert_eq!(fmt_amount(7), "7");
    assert_eq!(fmt_amount(999), "999");
    assert_eq!(fmt_amount(1000), "1 000");
    assert_eq!(fmt_amount(12345), "12 345");
    assert_eq!(fmt_amount(123456), "123 456");
    assert_eq!(fmt_amount(1234567), "1 234 567");
    assert_eq!(fmt_amount(u64::MAX), "18 446 744 073 709 551 615");
}

#[test]
fn matched_roll_message_has_one_line_per_player() {
    assert_eq!(
        build_matched_roll_message(s("highest"), &vec![s("1"), s("2")]),
        "<@1>, you matched the highest roll. Please reroll.\n<@2>, you matched the highest roll. Please reroll."
    );
    assert_eq!(build_matched_roll_message(s("lowest"), &vec![]), "");
}

#[test]
fn error_messages() {
    let p = s("9");
    assert_eq!(
        map_game_error_to_discord_message(&p, GameError::NotEnoughPlayers(2)),
        ":upside_down: <@9>, there needs to be at least 2 players."
    );
    assert_eq!(
        map_game_error_to_discord_message(&p, GameError::GoldAmountTooSmall(1000)),
        ":pinched_fingers: <@9>, what are you broke? Gamble at least 1 000 gold."
    );
    assert_eq!(
        map_game_error_to_discord_message(&p, GameError::UnknownCommand),
        "<@9>, is this your first time? (i.e.: `g!help`)"
    );
    assert_eq!(
        map_game_error_to_discord_message(&p, GameError::NoWinnersFound),
        ":thinking: wtf, no winners were found.. but the game is done? Holy fuck."
    );
    assert_eq!(
        map_game_error_to_discord_message(&p, GameError::PlayersMatchedLowestRoll(vec![s("1")])),
        "<@1>, you matched the lowest roll. Please reroll."
    );
    assert_eq!(
        map_game_error_to_discord_message(
            &p,
            GameError::PlayersMatchedHighestAndLowestRoll(vec![s("1")], vec![s("2")])
        ),
        "<@1>, you matched the highest roll. Please reroll.\n<@2>, you matched the lowest roll. Please reroll."
    );
}

#[test]
fn response_messages() {
    let p = s("9");
    assert_eq!(map_ggm_response_to_discord_message(&p, GGMResponse::Empty), None);
    assert_eq!(
        map_ggm_response_to_discord_message(&p, GGMResponse::Started),
        Some(s("Game started :rocket:! Type `g!roll`!"))
    );
    assert_eq!(
        map_ggm_response_to_discord_message(&p, GGMResponse::PlayerRolled(1500)),
        Some(s("<@9> rolled a 1 500!"))
    );
    assert_eq!(
        map_ggm_response_to_discord_message(&p, GGMResponse::Done((s("1"), s("2"), 2500))),
        Some(s("__A winner has emerged!__\n:coin: <@2> owes <@1> **2 500** gold."))
    );
    assert_eq!(
        map_ggm_response_to_discord_message(&p, GGMResponse::Message(s("hi"))),
        Some(s("hi"))
    );
}
