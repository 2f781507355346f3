use vstd::prelude::*;
use vstd::string::StringExecFns;

use crate::error::{ids, GameError, PlayerId};
use crate::gamble_game_manager::GGMResponse;

verus! {

/// The character of the decimal digit `d`.
pub open spec fn digit_char(d: u8) -> char {
    if d == 0 { '0' }
    else if d == 1 { '1' }
    else if d == 2 { '2' }
    else if d == 3 { '3' }
    else if d == 4 { '4' }
    else if d == 5 { '5' }
    else if d == 6 { '6' }
    else if d == 7 { '7' }
    else if d == 8 { '8' }
    else { '9' }
}

/// The decimal digits of `n`, most significant first.
pub open spec fn digits_of(n: nat) -> Seq<u8>
    decreases n,
{
    if n < 10 {
        seq![n as u8]
    } else {
        digits_of(n / 10).push((n % 10) as u8)
    }
}

/// `n` written in base ten.
pub open spec fn decimal_text(n: nat) -> Seq<char> {
    digits_of(n).map_values(|d: u8| digit_char(d))
}

/// Whether a space follows the `k`-th (from 1) of `len` digits: a
/// non-empty multiple of three digits comes after it.
pub open spec fn space_after(len: int, k: int) -> bool {
    k < len && (len - k) % 3 == 0
}

/// The first `k` of the digits `d`, with a space after each digit that a
/// non-empty multiple of three digits follows.
pub open spec fn spaced(d: Seq<u8>, k: int) -> Seq<char>
    decreases k,
{
    if k <= 0 {
        Seq::empty()
    } else {
        let prev = spaced(d, k - 1).push(digit_char(d[k - 1]));
        if space_after(d.len() as int, k) { prev.push(' ') } else { prev }
    }
}

/// `n` in base ten, its digits grouped by three from the right.
pub open spec fn amount_text(n: nat) -> Seq<char> {
    spaced(digits_of(n), digits_of(n).len() as int)
}

/// `pre + ids[i] + post` for each `i`, one per line.
pub open spec fn lines(ids: Seq<Seq<char>>, pre: Seq<char>, post: Seq<char>) -> Seq<char>
    decreases ids.len(),
{
    if ids.len() == 0 {
        Seq::empty()
    } else if ids.len() == 1 {
        pre + ids[0] + post
    } else {
        lines(ids.drop_last(), pre, post) + "\n"@ + pre + ids.last() + post
    }
}

proof fn lemma_digits_small(n: nat)
    ensures
        digits_of(n).len() > 0,
        forall|i: int| 0 <= i < digits_of(n).len() ==> #[trigger] digits_of(n)[i] < 10,
    decreases n,
{
    if n >= 10 {
        lemma_digits_small(n / 10);
    }
}

/// The text of the digit `d`.
fn digit_str(d: u8) -> (r: &'static str)
    requires
        d < 10,
    ensures
        r@ == seq![digit_char(d)],
{
    proof {
        reveal_strlit("0");
        reveal_strlit("1");
        reveal_strlit("2");
        reveal_strlit("3");
        reveal_strlit("4");
        reveal_strlit("5");
        reveal_strlit("6");
        reveal_strlit("7");
        reveal_strlit("8");
        reveal_strlit("9");
    }
    match d {
        0 => "0",
        1 => "1",
        2 => "2",
        3 => "3",
        4 => "4",
        5 => "5",
        6 => "6",
        7 => "7",
        8 => "8",
        _ => "9",
    }
}

/// Appends the decimal digits of `n`.
fn push_digits(n: u64, out: &mut Vec<u8>)
    ensures
        final(out)@ == old(out)@ + digits_of(n as nat),
    decreases n,
{
    if n >= 10 {
        push_digits(n / 10, out);
    }
    let ghost before = out@;
    out.push((n % 10) as u8);
    proof {
        if n >= 10 {
            assert(out@ =~= old(out)@ + digits_of(n as nat));
        } else {
            assert(out@ =~= old(out)@ + digits_of(n as nat));
        }
    }
}

/// Appends `n` in base ten.
pub fn push_decimal(out: &mut String, n: u64)
    ensures
        final(out)@ == old(out)@ + decimal_text(n as nat),
{
    let mut d: Vec<u8> = Vec::new();
    push_digits(n, &mut d);
    proof {
        lemma_digits_small(n as nat);
        assert(d@ =~= digits_of(n as nat));
    }
    let ghost text = decimal_text(n as nat);
    let ghost start = out@;
    let mut i: usize = 0;
    while i < d.len()
        invariant
            0 <= i <= d.len(),
            d@ == digits_of(n as nat),
            text == decimal_text(n as nat),
            forall|j: int| 0 <= j < d@.len() ==> #[trigger] d@[j] < 10,
            out@ == start + text.subrange(0, i as int),
        decreases d.len() - i,
    {
        out.append(digit_str(d[i]));
        assert(text.subrange(0, i + 1) =~= text.subrange(0, i as int).push(digit_char(d@[i as int])));
        i += 1;
    }
    assert(text.subrange(0, i as int) =~= text);
}

/// Writes an amount with its digits grouped by three, separated by spaces
/// (`1234567` is `1 234 567`).
pub fn fmt_amount(n: u64) -> (r: String)
    ensures
        r@ == amount_text(n as nat),
{
    let mut d: Vec<u8> = Vec::new();
    push_digits(n, &mut d);
    proof {
        lemma_digits_small(n as nat);
        assert(d@ =~= digits_of(n as nat));
    }
    let mut result = String::new();
    let len = d.len();
    let mut i: usize = 0;
    while i < len
        invariant
            0 <= i <= len,
            len == d.len(),
            d@ == digits_of(n as nat),
            forall|j: int| 0 <= j < d@.len() ==> #[trigger] d@[j] < 10,
            result@ == spaced(d@, i as int),
        decreases len - i,
    {
        result.append(digit_str(d[i]));
        if (len - i - 1) % 3 == 0 && i != len - 1 {
            proof {
                reveal_strlit(" ");
            }
            result.append(" ");
        }
        i += 1;
    }
    result
}

/// Appends `pre + ids[i] + post` for each `i`, one per line.
pub fn push_lines(out: &mut String, v: &Vec<PlayerId>, pre: &str, post: &str)
    ensures
        final(out)@ == old(out)@ + lines(ids(v@), pre@, post@),
{
    let ghost all = ids(v@);
    let ghost start = out@;
    let mut i: usize = 0;
    while i < v.len()
        invariant
            0 <= i <= v.len(),
            all == ids(v@),
            out@ == start + lines(all.subrange(0, i as int), pre@, post@),
        decreases v.len() - i,
    {
        let ghost sub = all.subrange(0, i + 1);
        assert(sub.drop_last() =~= all.subrange(0, i as int));
        if i > 0 {
            out.append("\n");
        }
        out.append(pre);
        out.append(v[i].as_str());
        out.append(post);
        assert(out@ =~= start + lines(sub, pre@, post@));
        i += 1;
    }
    assert(all.subrange(0, i as int) =~= all);
}

/// One line per player, asking each to reroll after matching the
/// `roll_type` roll.
pub fn build_matched_roll_message(roll_type: String, player_ids: &Vec<PlayerId>) -> (r: String)
    ensures
        r@ == lines(
            ids(player_ids@),
            "<@"@,
            ">, you matched the "@ + roll_type@ + " roll. Please reroll."@,
        ),
{
    let mut post = String::new();
    post.append(">, you matched the ");
    post.append(roll_type.as_str());
    post.append(" roll. Please reroll.");
    let mut r = String::new();
    push_lines(&mut r, player_ids, "<@", post.as_str());
    assert(r@ =~= lines(
        ids(player_ids@),
        "<@"@,
        ">, you matched the "@ + roll_type@ + " roll. Please reroll."@,
    ));
    r
}

/// How a player is mentioned.
pub open spec fn mention(p: Seq<char>) -> Seq<char> {
    "<@"@ + p + ">"@
}

/// Appends the mention of `player_id`.
fn push_mention(r: &mut String, player_id: &PlayerId)
    ensures
        final(r)@ == old(r)@ + mention(player_id@),
{
    r.append("<@");
    r.append(player_id.as_str());
    r.append(">");
}

/// The request to reroll sent to `players` after they matched the `kind`
/// roll.
pub open spec fn matched_text(kind: Seq<char>, players: Vec<PlayerId>) -> Seq<char> {
    lines(ids(players@), "<@"@, ">, you matched the "@ + kind + " roll. Please reroll."@)
}

/// The message that tells `p` about `resp`, if there is one.
pub open spec fn response_text(p: Seq<char>, resp: GGMResponse) -> Option<Seq<char>> {
    match resp {
        GGMResponse::Started => Some("Game started :rocket:! Type `g!roll`!"@),
        GGMResponse::Empty => None,
        GGMResponse::ShowJoinInfo => Some("Type `g!join` to join the game!"@),
        GGMResponse::Done((w, l, amount)) => Some(
            "__A winner has emerged!__\n:coin: "@ + mention(l@) + " owes "@ + mention(w@) + " **"@
                + amount_text(amount as nat) + "** gold."@,
        ),
        GGMResponse::PlayerRolled(v) => Some(
            mention(p) + " rolled a "@ + amount_text(v as nat) + "!"@,
        ),
        GGMResponse::ShowGeneralInfo(info) => Some(info@),
        GGMResponse::Message(message) => Some(message@),
    }
}

/// The message that tells `player_id` about `response`, if there is one.
pub fn map_ggm_response_to_discord_message(player_id: &PlayerId, response: GGMResponse) -> (r:
    Option<String>)
    ensures
        match r {
            Some(s) => response_text(player_id@, response) == Some(s@),
            None => response_text(player_id@, response) is None,
        },
{
    match response {
        GGMResponse::Started => Some("Game started :rocket:! Type `g!roll`!".to_owned()),
        GGMResponse::Empty => None,
        GGMResponse::ShowJoinInfo => Some("Type `g!join` to join the game!".to_owned()),
        GGMResponse::Done((winner_id, loser_id, amount)) => {
            let mut r = String::new();
            r.append("__A winner has emerged!__\n:coin: ");
            push_mention(&mut r, &loser_id);
            r.append(" owes ");
            push_mention(&mut r, &winner_id);
            r.append(" **");
            r.append(fmt_amount(amount).as_str());
            r.append("** gold.");
            Some(r)
        },
        GGMResponse::PlayerRolled(roll_value) => {
            let mut r = String::new();
            push_mention(&mut r, player_id);
            r.append(" rolled a ");
            r.append(fmt_amount(roll_value).as_str());
            r.append("!");
            Some(r)
        },
        GGMResponse::ShowGeneralInfo(info) => Some(info),
        GGMResponse::Message(message) => Some(message),
    }
}

/// The message that tells `p` about `e`.
pub open spec fn error_text(p: Seq<char>, e: GameError) -> Seq<char> {
    match e {
        GameError::PlayerCannotRollOnAnInexistentGame => mention(p) + ", __you absolute dipshit__, what are you rolling for? (i.e.: `g!create`)"@,
        GameError::PlayerCannotRequestInfoOnInexistentGame => mention(p) + ", __you're a lost cause__, you gotta create a game first before requesting info. (i.e.: `g!create`)"@,
        GameError::NoWinnersFound => ":thinking: wtf, no winners were found.. but the game is done? Holy fuck."@,
        GameError::PlayerCannotPlayOnInexistentGame => mention(p) + ", __you absolute mongoloid__, you gotta create a game first before playing. (i.e.: `g!create`)"@,
        GameError::PlayerCannotJoinAnInexistentGame => mention(p) + ", __you absolute donut__, you gotta create a game first before joining one. (i.e.: `g!create`)"@,
        GameError::CannotInitGame => ":man_facepalming: "@ + mention(p) + ", bro there is already an ongoing game. (i.e.: `g!info`)"@,
        GameError::NotEnoughPlayers(minimum) => ":upside_down: "@ + mention(p) + ", there needs to be at least "@ + decimal_text(minimum as nat) + " players."@,
        GameError::GoldAmountTooSmall(minimum) => ":pinched_fingers: "@ + mention(p) + ", what are you broke? Gamble at least "@ + amount_text(minimum as nat) + " gold."@,
        GameError::PlayerCannotJoinOngoingGame => ":weary: "@ + mention(p) + ", let the game end first and then join the next one."@,
        GameError::PlayerAlreadyPartOfGame => ":zany_face: "@ + mention(p) + ", you're already part of the game dipshit."@,
        GameError::PlayerCannotRoll => ":unamused: "@ + mention(p) + ", it's not the right time to roll."@,
        GameError::PlayerAlreadyRolled => ":expresionless: "@ + mention(p) + ", you think rolling twice is going to help your cause?"@,
        GameError::PlayersMatchedLowestRoll(items) => matched_text("lowest"@, items),
        GameError::PlayersMatchedHighestRoll(items) => matched_text("highest"@, items),
        GameError::PlayersMatchedHighestAndLowestRoll(high, low) => matched_text("highest"@, high) + "\n"@ + matched_text("lowest"@, low),
        GameError::GameAlreadyExists => mention(p) + ", a game already exists in this channel.. try finishing it first?"@,
        GameError::UnknownCommand => mention(p) + ", is this your first time? (i.e.: `g!help`)"@,
    }
}

/// The message that tells `player_id` about `error`.
pub fn map_game_error_to_discord_message(player_id: &PlayerId, error: GameError) -> (r: String)
    ensures
        r@ == error_text(player_id@, error),
{
    let ghost e = error;
    let mut r = String::new();
    match error {
        GameError::PlayerCannotRollOnAnInexistentGame => {
            push_mention(&mut r, player_id);
            r.append(", __you absolute dipshit__, what are you rolling for? (i.e.: `g!create`)");
        },
        GameError::PlayerCannotRequestInfoOnInexistentGame => {
            push_mention(&mut r, player_id);
            r.append(", __you're a lost cause__, you gotta create a game first before requesting info. (i.e.: `g!create`)");
        },
        GameError::NoWinnersFound => {
            r.append(":thinking: wtf, no winners were found.. but the game is done? Holy fuck.");
        },
        GameError::PlayerCannotPlayOnInexistentGame => {
            push_mention(&mut r, player_id);
            r.append(", __you absolute mongoloid__, you gotta create a game first before playing. (i.e.: `g!create`)");
        },
        GameError::PlayerCannotJoinAnInexistentGame => {
            push_mention(&mut r, player_id);
            r.append(", __you absolute donut__, you gotta create a game first before joining one. (i.e.: `g!create`)");
        },
        GameError::CannotInitGame => {
            r.append(":man_facepalming: ");
            push_mention(&mut r, player_id);
            r.append(", bro there is already an ongoing game. (i.e.: `g!info`)");
        },
        GameError::NotEnoughPlayers(minimum) => {
            r.append(":upside_down: ");
            push_mention(&mut r, player_id);
            r.append(", there needs to be at least ");
            push_decimal(&mut r, minimum);
            r.append(" players.");
        },
        GameError::GoldAmountTooSmall(minimum) => {
            r.append(":pinched_fingers: ");
            push_mention(&mut r, player_id);
            r.append(", what are you broke? Gamble at least ");
            r.append(fmt_amount(minimum).as_str());
            r.append(" gold.");
        },
        GameError::PlayerCannotJoinOngoingGame => {
            r.append(":weary: ");
            push_mention(&mut r, player_id);
            r.append(", let the game end first and then join the next one.");
        },
        GameError::PlayerAlreadyPartOfGame => {
            r.append(":zany_face: ");
            push_mention(&mut r, player_id);
            r.append(", you're already part of the game dipshit.");
        },
        GameError::PlayerCannotRoll => {
            r.append(":unamused: ");
            push_mention(&mut r, player_id);
            r.append(", it's not the right time to roll.");
        },
        GameError::PlayerAlreadyRolled => {
            r.append(":expresionless: ");
            push_mention(&mut r, player_id);
            r.append(", you think rolling twice is going to help your cause?");
        },
        GameError::PlayersMatchedLowestRoll(items) => {
            r.append(build_matched_roll_message("lowest".to_owned(), &items).as_str());
        },
        GameError::PlayersMatchedHighestRoll(items) => {
            r.append(build_matched_roll_message("highest".to_owned(), &items).as_str());
        },
        GameError::PlayersMatchedHighestAndLowestRoll(high, low) => {
            r.append(build_matched_roll_message("highest".to_owned(), &high).as_str());
            r.append("\n");
            r.append(build_matched_roll_message("lowest".to_owned(), &low).as_str());
        },
        GameError::GameAlreadyExists => {
            push_mention(&mut r, player_id);
            r.append(", a game already exists in this channel.. try finishing it first?");
        },
        GameError::UnknownCommand => {
            push_mention(&mut r, player_id);
            r.append(", is this your first time? (i.e.: `g!help`)");
        },
    }
    assert(r@ =~= error_text(player_id@, e));
    r
}

} // verus!
