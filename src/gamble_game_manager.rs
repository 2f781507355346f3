use vstd::prelude::*;
use vstd::string::StringSliceAdditionalSpecFns;

use crate::error::{GameError, GameStatus, PlayerId, RollValue};
use crate::gamble_classic::{
    advance_view, after_join, after_roll, after_start, can_roll, fresh, join_outcome, reports,
    info_text, resolution, start_outcome, valid, Advance, GambleClassic, GameView, MIN_GOLD_AMOUNT,
};

use crate::gamble_game::GambleGame;

verus! {

/// What a command or a resolution step hands back for rendering.
#[derive(Debug, PartialEq, Eq)]
pub enum GGMResponse {
    Empty,
    ShowJoinInfo,
    Started,
    PlayerRolled(RollValue),
    Done((PlayerId, PlayerId, RollValue)),
    ShowGeneralInfo(String),
    Message(String),
}

/// The games of all rooms, at most one per room.
pub struct GambleGameManager {
    map: Vec<(String, GambleClassic)>,
}

/// Whether `rooms` holds a game for `id`.
pub open spec fn has_room(rooms: Seq<(Seq<char>, GameView)>, id: Seq<char>) -> bool {
    exists|i: int| 0 <= i < rooms.len() && #[trigger] rooms[i].0 == id
}

/// No room twice, and every game valid.
pub open spec fn rooms_valid(rooms: Seq<(Seq<char>, GameView)>) -> bool {
    &&& forall|i: int, j: int|
        0 <= i < rooms.len() && 0 <= j < rooms.len() && i != j ==> #[trigger] rooms[i].0
            != #[trigger] rooms[j].0
    &&& forall|i: int| 0 <= i < rooms.len() ==> valid(#[trigger] rooms[i].1)
}

/// The result of an engine action as a registry response.
pub open spec fn answered(r: Result<(), GameError>, ok: GGMResponse) -> Result<
    GGMResponse,
    GameError,
> {
    match r {
        Ok(_) => Ok(ok),
        Err(e) => Err(e),
    }
}

/// Whether every byte of `b` is an ASCII digit.
pub open spec fn all_digits(b: Seq<u8>) -> bool {
    forall|i: int| 0 <= i < b.len() ==> 48 <= #[trigger] b[i] <= 57
}

/// The number that the ASCII digits `b` write in base ten.
pub open spec fn decimal(b: Seq<u8>) -> nat
    decreases b.len(),
{
    if b.len() == 0 {
        0
    } else {
        decimal(b.drop_last()) * 10 + (b.last() - 48) as nat
    }
}

/// The digits of an unsigned number argument: an optional leading `+`
/// taken off.
pub open spec fn unsigned_digits(b: Seq<u8>) -> Seq<u8> {
    if b.len() > 0 && b[0] == 43 { b.drop_first() } else { b }
}

/// The stake that the argument `b` of a create command asks for: the
/// unsigned 64-bit number it writes, or 0 where it writes none.
pub open spec fn stake_arg(b: Seq<u8>) -> u64 {
    let d = unsigned_digits(b);
    if d.len() > 0 && all_digits(d) && decimal(d) <= u64::MAX { decimal(d) as u64 } else { 0 }
}

/// Appending digits never makes the number smaller.
proof fn lemma_decimal_grows(b: Seq<u8>, j: int)
    requires
        0 <= j <= b.len(),
        all_digits(b),
    ensures
        decimal(b.subrange(0, j)) <= decimal(b),
    decreases b.len() - j,
{
    if j < b.len() {
        lemma_decimal_grows(b, j + 1);
        assert(b.subrange(0, j + 1).drop_last() =~= b.subrange(0, j));
    } else {
        assert(b.subrange(0, j) =~= b);
    }
}

/// Reads the stake argument of a create command.
pub fn parse_stake(arg: &str) -> (r: u64)
    ensures
        r == stake_arg(arg.spec_bytes()),
{
    let b = arg.as_bytes();
    let ghost d = unsigned_digits(b@);
    let start: usize = if b.len() > 0 && b[0] == 43 { 1 } else { 0 };
    assert(d =~= b@.subrange(start as int, b@.len() as int));
    if start >= b.len() {
        return 0;
    }
    let mut acc: u64 = 0;
    let mut i: usize = start;
    while i < b.len()
        invariant
            start <= i <= b.len(),
            b@ == arg.spec_bytes(),
            d == unsigned_digits(b@),
            d =~= b@.subrange(start as int, b@.len() as int),
            all_digits(d.subrange(0, i - start)),
            acc as nat == decimal(d.subrange(0, i - start)),
        decreases b.len() - i,
    {
        let c = b[i];
        if c < 48 || c > 57 {
            proof {
                let k = i - start;
                assert(d[k as int] == c);
                assert(!all_digits(d)) by {
                    assert(!(48 <= d[k as int] <= 57));
                }
            }
            return 0;
        }
        let digit: u64 = (c - 48) as u64;
        assert(d.subrange(0, i + 1 - start).drop_last() =~= d.subrange(0, i - start));
        assert(d.subrange(0, i + 1 - start).last() == c);
        if acc > (u64::MAX - digit) / 10 {
            proof {
                assert(acc * 10 + digit > u64::MAX) by (nonlinear_arith)
                    requires
                        acc > (u64::MAX - digit) / 10,
                        digit <= 9,
                ;
                let k = (i + 1 - start) as int;
                assert(decimal(d.subrange(0, k)) == decimal(d.subrange(0, k - 1)) * 10 + (c
                    - 48) as nat);
                if all_digits(d) {
                    lemma_decimal_grows(d, k);
                    assert(decimal(d) > u64::MAX);
                }
            }
            return 0;
        }
        proof {
            assert(acc * 10 + digit <= u64::MAX) by (nonlinear_arith)
                requires
                    acc <= (u64::MAX - digit) / 10,
                    digit <= 9,
            ;
        }
        acc = acc * 10 + digit;
        i += 1;
    }
    assert(d.subrange(0, i - start) =~= d);
    acc
}

/// Whether `s` writes the text `lit`.
fn is_word(s: &str, lit: &str) -> (r: bool)
    ensures
        r == (s@ == lit@),
{
    s.to_owned() == lit.to_owned()
}

/// Help text of the commands.
fn help() -> (r: String)
    ensures
        r@ == HELP@,
{
    HELP.to_owned()
}

/// The commands and what they do.
pub const HELP: &'static str = "
:moneybag: **Gamble Game!**
*Great way to lose gold in your favorite game.*
- `g!create <GOLD_AMOUNT>`  __Create a unique game in a channel__
- `g!join` __Join a new game__
- `g!play` __Start a new game__
- `g!roll` __Roll__
- `g!help` __List all available commands__
- `g!info` __List information about the current game__
";

/// What `create` does: refuse a taken room, then a stake below the minimum,
/// else add a fresh game for the room.
pub open spec fn create_post(
    before: Seq<(Seq<char>, GameView)>,
    after: Seq<(Seq<char>, GameView)>,
    id: Seq<char>,
    user: Seq<char>,
    stake: u64,
    r: Result<GGMResponse, GameError>,
) -> bool {
    if has_room(before, id) {
        r == Err::<GGMResponse, GameError>(GameError::GameAlreadyExists) && after == before
    } else if stake < MIN_GOLD_AMOUNT {
        r == Err::<GGMResponse, GameError>(GameError::GoldAmountTooSmall(MIN_GOLD_AMOUNT))
            && after == before
    } else {
        r == Ok::<GGMResponse, GameError>(GGMResponse::ShowJoinInfo) && after == before.push(
            (id, fresh(user, stake)),
        )
    }
}

/// What `join` does: refuse a room with no game, else join its game.
pub open spec fn join_post(
    before: Seq<(Seq<char>, GameView)>,
    after: Seq<(Seq<char>, GameView)>,
    id: Seq<char>,
    p: Seq<char>,
    r: Result<GGMResponse, GameError>,
) -> bool {
    &&& !has_room(before, id) ==> r == Err::<GGMResponse, GameError>(
        GameError::PlayerCannotJoinAnInexistentGame,
    ) && after == before
    &&& forall|i: int|
        0 <= i < before.len() && #[trigger] before[i].0 == id ==> r == answered(
            join_outcome(before[i].1, p),
            GGMResponse::Empty,
        ) && after == before.update(i, (id, after_join(before[i].1, p)))
}

/// What `play` does: refuse a room with no game, else start its game.
pub open spec fn play_post(
    before: Seq<(Seq<char>, GameView)>,
    after: Seq<(Seq<char>, GameView)>,
    id: Seq<char>,
    r: Result<GGMResponse, GameError>,
) -> bool {
    &&& !has_room(before, id) ==> r == Err::<GGMResponse, GameError>(
        GameError::PlayerCannotPlayOnInexistentGame,
    ) && after == before
    &&& forall|i: int|
        0 <= i < before.len() && #[trigger] before[i].0 == id ==> r == answered(
            start_outcome(before[i].1),
            GGMResponse::Started,
        ) && after == before.update(i, (id, after_start(before[i].1)))
}

/// What `roll` does: refuse a room with no game, else roll in its game.
pub open spec fn roll_post(
    before: Seq<(Seq<char>, GameView)>,
    after: Seq<(Seq<char>, GameView)>,
    id: Seq<char>,
    p: Seq<char>,
    r: Result<GGMResponse, GameError>,
) -> bool {
    &&& !has_room(before, id) ==> r == Err::<GGMResponse, GameError>(
        GameError::PlayerCannotRollOnAnInexistentGame,
    ) && after == before
    &&& forall|i: int|
        0 <= i < before.len() && #[trigger] before[i].0 == id ==> {
            let g = before[i].1;
            &&& can_roll(g, p) ==> (r matches Ok(GGMResponse::PlayerRolled(v)) && v <= g.stake
                && after == before.update(i, (id, after_roll(g, p, v))))
            &&& !can_roll(g, p) ==> r == Err::<GGMResponse, GameError>(
                GameError::PlayerCannotRoll,
            ) && after == before
        }
}

/// What `info` hands back.
pub open spec fn info_post(
    rooms: Seq<(Seq<char>, GameView)>,
    id: Seq<char>,
    r: Result<GGMResponse, GameError>,
) -> bool {
    &&& !has_room(rooms, id) ==> r == Err::<GGMResponse, GameError>(
        GameError::PlayerCannotRequestInfoOnInexistentGame,
    )
    &&& forall|i: int|
        0 <= i < rooms.len() && #[trigger] rooms[i].0 == id ==> (r matches Ok(
            GGMResponse::ShowGeneralInfo(s),
        ) && s@ == info_text(rooms[i].1))
}

/// What `tick` does: nothing where the room has no game; else one
/// resolution step on its game, which leaves once it is done.
pub open spec fn tick_post(
    before: Seq<(Seq<char>, GameView)>,
    after: Seq<(Seq<char>, GameView)>,
    id: Seq<char>,
    r: Result<GGMResponse, GameError>,
) -> bool {
    &&& !has_room(before, id) ==> r == Ok::<GGMResponse, GameError>(GGMResponse::Empty) && after
        == before
    &&& forall|i: int|
        0 <= i < before.len() && #[trigger] before[i].0 == id ==> {
            let (g, a) = advance_view(before[i].1);
            &&& a == Advance::Status(GameStatus::DONE) ==> (r matches Ok(GGMResponse::Done(t))
                && resolution(g) == Some((t.0@, t.1@, t.2)) && after == before.remove(i))
            &&& a != Advance::Status(GameStatus::DONE) ==> after == before.update(i, (id, g))
            &&& a is Status && a != Advance::Status(GameStatus::DONE) ==> r == Ok::<
                GGMResponse,
                GameError,
            >(GGMResponse::Empty)
            &&& !(a is Status) ==> r is Err && reports(Err::<GameStatus, GameError>(r->Err_0), a)
        }
}

/// Whether `c` is one of the commands.
pub open spec fn is_command(c: Seq<char>) -> bool {
    c == "g!create"@ || c == "g!join"@ || c == "g!play"@ || c == "g!roll"@ || c == "g!help"@
        || c == "g!info"@
}

/// A room that has a game cannot get a second one.
pub proof fn lemma_create_taken(
    before: Seq<(Seq<char>, GameView)>,
    after: Seq<(Seq<char>, GameView)>,
    id: Seq<char>,
    user: Seq<char>,
    stake: u64,
    r: Result<GGMResponse, GameError>,
)
    requires
        has_room(before, id),
        create_post(before, after, id, user, stake, r),
    ensures
        r == Err::<GGMResponse, GameError>(GameError::GameAlreadyExists),
        after == before,
{
}

/// Once a resolution step hands out a finished game, its room is free: a
/// new game can be created there at once.
pub proof fn lemma_done_frees_room(
    before: Seq<(Seq<char>, GameView)>,
    after: Seq<(Seq<char>, GameView)>,
    id: Seq<char>,
    r: Result<GGMResponse, GameError>,
    after_create: Seq<(Seq<char>, GameView)>,
    user: Seq<char>,
    stake: u64,
    r2: Result<GGMResponse, GameError>,
)
    requires
        rooms_valid(before),
        tick_post(before, after, id, r),
        r matches Ok(GGMResponse::Done(_)),
        stake >= MIN_GOLD_AMOUNT,
        create_post(after, after_create, id, user, stake, r2),
    ensures
        !has_room(after, id),
        r2 == Ok::<GGMResponse, GameError>(GGMResponse::ShowJoinInfo),
        after_create == after.push((id, fresh(user, stake))),
{
    let i = choose|i: int| 0 <= i < before.len() && #[trigger] before[i].0 == id;
    assert(after == before.remove(i));
    assert forall|j: int| 0 <= j < after.len() implies #[trigger] after[j].0 != id by {
        if j < i {
            assert(after[j] == before[j]);
        } else {
            assert(after[j] == before[j + 1]);
        }
    }
}

/// A resolution step on a room with no game never fails and reports
/// nothing.
pub proof fn lemma_tick_no_game(
    before: Seq<(Seq<char>, GameView)>,
    after: Seq<(Seq<char>, GameView)>,
    id: Seq<char>,
    r: Result<GGMResponse, GameError>,
)
    requires
        !has_room(before, id),
        tick_post(before, after, id, r),
    ensures
        r == Ok::<GGMResponse, GameError>(GGMResponse::Empty),
        after == before,
{
}

/// A room without a game stays without one through any join, start, roll,
/// info or resolution step, on whatever room, and through a create on
/// another room: only a create on the room itself gives it a game.
pub proof fn lemma_free_room_stays_free(
    before: Seq<(Seq<char>, GameView)>,
    after: Seq<(Seq<char>, GameView)>,
    id: Seq<char>,
    other: Seq<char>,
    p: Seq<char>,
    stake: u64,
    r: Result<GGMResponse, GameError>,
)
    requires
        rooms_valid(before),
        !has_room(before, id),
        join_post(before, after, other, p, r) || play_post(before, after, other, r) || roll_post(
            before,
            after,
            other,
            p,
            r,
        ) || tick_post(before, after, other, r) || after == before || (other != id && create_post(
            before,
            after,
            other,
            p,
            stake,
            r,
        )),
    ensures
        !has_room(after, id),
{
    if has_room(before, other) {
        let i = choose|i: int| 0 <= i < before.len() && #[trigger] before[i].0 == other;
        if tick_post(before, after, other, r) && after.len() != before.len() {
            assert forall|j: int| 0 <= j < after.len() implies #[trigger] after[j].0 != id by {
                if j < i {
                    assert(after[j] == before[j]);
                } else {
                    assert(after[j] == before[j + 1]);
                }
            }
        } else {
            assert forall|j: int| 0 <= j < after.len() implies #[trigger] after[j].0 != id by {
                assert(after[j].0 == before[j].0);
            }
        }
    } else {
        assert forall|j: int| 0 <= j < after.len() implies #[trigger] after[j].0 != id by {
            if j < before.len() {
                assert(after[j] == before[j]);
            }
        }
    }
}

impl View for GambleGameManager {
    type V = Seq<(Seq<char>, GameView)>;

    closed spec fn view(&self) -> Seq<(Seq<char>, GameView)> {
        self.map@.map_values(|e: (String, GambleClassic)| (e.0@, e.1@))
    }
}

impl GambleGameManager {
    /// The registry's invariant: no room twice, every game valid.
    pub open spec fn well_formed(&self) -> bool {
        rooms_valid(self@)
    }

    /// A registry with no game.
    pub fn new() -> (r: Self)
        ensures
            r@ == Seq::<(Seq<char>, GameView)>::empty(),
            r.well_formed(),
    {
        let r = GambleGameManager { map: Vec::new() };
        assert(r@ =~= Seq::<(Seq<char>, GameView)>::empty());
        r
    }

    /// Where the game of room `game_id` stands.
    fn lookup(&self, game_id: &String) -> (r: Option<usize>)
        ensures
            match r {
                Some(i) => i < self@.len() && self@[i as int].0 == game_id@,
                None => !has_room(self@, game_id@),
            },
    {
        let mut i: usize = 0;
        while i < self.map.len()
            invariant
                0 <= i <= self.map.len(),
                forall|j: int| 0 <= j < i ==> self@[j].0 != game_id@,
            decreases self.map.len() - i,
        {
            if self.map[i].0 == *game_id {
                return Some(i);
            }
            i += 1;
        }
        None
    }

    /// Takes the entry at `i` out, to act on its game.
    fn take(&mut self, i: usize) -> (r: (String, GambleClassic))
        requires
            i < old(self)@.len(),
        ensures
            final(self)@ == old(self)@.remove(i as int),
            (r.0@, r.1@) == old(self)@[i as int],
    {
        let e = self.map.remove(i);
        assert(self@ =~= old(self)@.remove(i as int));
        e
    }

    /// Puts an entry back at `i`.
    fn put(&mut self, i: usize, e: (String, GambleClassic))
        requires
            i <= old(self)@.len(),
        ensures
            final(self)@ == old(self)@.insert(i as int, (e.0@, e.1@)),
    {
        self.map.insert(i, e);
        assert(self@ =~= old(self)@.insert(i as int, (e.0@, e.1@)));
    }

    /// Creates the game of room `game_id`, for `max_roll`, joined by `user_id`.
    pub fn create(&mut self, game_id: String, user_id: PlayerId, max_roll: u64) -> (r: Result<
        GGMResponse,
        GameError,
    >)
        requires
            old(self).well_formed(),
        ensures
            final(self).well_formed(),
            create_post(old(self)@, final(self)@, game_id@, user_id@, max_roll, r),
    {
        if self.lookup(&game_id).is_some() {
            return Err(GameError::GameAlreadyExists);
        }
        let game = match GambleClassic::new(user_id, max_roll) {
            Ok(g) => g,
            Err(e) => {
                return Err(e);
            },
        };
        let ghost before = self@;
        self.map.push((game_id, game));
        assert(self@ =~= before.push((game_id@, fresh(user_id@, max_roll))));
        assert(forall|i: int| 0 <= i < before.len() ==> #[trigger] before[i].0 != game_id@);
        Ok(GGMResponse::ShowJoinInfo)
    }

    /// Adds `player_id` to the game of room `game_id`.
    pub fn join(&mut self, game_id: String, player_id: PlayerId) -> (r: Result<
        GGMResponse,
        GameError,
    >)
        requires
            old(self).well_formed(),
        ensures
            final(self).well_formed(),
            join_post(old(self)@, final(self)@, game_id@, player_id@, r),
    {
        match self.lookup(&game_id) {
            None => Err(GameError::PlayerCannotJoinAnInexistentGame),
            Some(i) => {
                let ghost before = self@;
                let (id, mut game) = self.take(i);
                assert(valid(before[i as int].1));
                let res = game.add_player(player_id);
                self.put(i, (id, game));
                assert(self@ =~= before.update(i as int, (game_id@, game@)));
                match res {
                    Ok(_) => Ok(GGMResponse::Empty),
                    Err(e) => Err(e),
                }
            },
        }
    }

    /// Starts the game of room `game_id`.
    pub fn play(&mut self, game_id: String) -> (r: Result<GGMResponse, GameError>)
        requires
            old(self).well_formed(),
        ensures
            final(self).well_formed(),
            play_post(old(self)@, final(self)@, game_id@, r),
    {
        match self.lookup(&game_id) {
            None => Err(GameError::PlayerCannotPlayOnInexistentGame),
            Some(i) => {
                let ghost before = self@;
                let (id, mut game) = self.take(i);
                assert(valid(before[i as int].1));
                let res = game.start();
                self.put(i, (id, game));
                assert(self@ =~= before.update(i as int, (game_id@, game@)));
                match res {
                    Ok(_) => Ok(GGMResponse::Started),
                    Err(e) => Err(e),
                }
            },
        }
    }

    /// Rolls for `player_id` in the game of room `game_id`.
    pub fn roll(&mut self, game_id: String, player_id: PlayerId) -> (r: Result<
        GGMResponse,
        GameError,
    >)
        requires
            old(self).well_formed(),
        ensures
            final(self).well_formed(),
            roll_post(old(self)@, final(self)@, game_id@, player_id@, r),
    {
        match self.lookup(&game_id) {
            None => Err(GameError::PlayerCannotRollOnAnInexistentGame),
            Some(i) => {
                let ghost before = self@;
                let (id, mut game) = self.take(i);
                assert(valid(before[i as int].1));
                let res = game.roll(player_id);
                self.put(i, (id, game));
                assert(self@ =~= before.update(i as int, (game_id@, game@)));
                match res {
                    Ok(v) => Ok(GGMResponse::PlayerRolled(v)),
                    Err(e) => {
                        assert(self@ =~= before);
                        Err(e)
                    },
                }
            },
        }
    }

    /// Runs one resolution step on the game of room `channel_id`, if there
    /// is one. A finished game is handed out and its room freed.
    pub fn tick(&mut self, channel_id: String) -> (r: Result<GGMResponse, GameError>)
        requires
            old(self).well_formed(),
        ensures
            final(self).well_formed(),
            tick_post(old(self)@, final(self)@, channel_id@, r),
    {
        match self.lookup(&channel_id) {
            None => Ok(GGMResponse::Empty),
            Some(i) => {
                let ghost before = self@;
                let (id, mut game) = self.take(i);
                assert(valid(before[i as int].1));
                let res = game.update();
                let wl = game.wl();
                let done = game.status() == GameStatus::DONE;
                if !done {
                    self.put(i, (id, game));
                    assert(self@ =~= before.update(i as int, (channel_id@, game@)));
                    return match res {
                        Ok(_) => Ok(GGMResponse::Empty),
                        Err(e) => Err(e),
                    };
                }
                match wl {
                    None => {
                        self.put(i, (id, game));
                        Err(GameError::NoWinnersFound)
                    },
                    Some(t) => {
                        // The finished game leaves, so the room can host a new one.
                        Ok(GGMResponse::Done(t))
                    },
                }
            },
        }
    }
    /// The snapshot of the game of room `game_id`.
    pub fn info(&self, game_id: String) -> (r: Result<GGMResponse, GameError>)
        requires
            self.well_formed(),
        ensures
            info_post(self@, game_id@, r),
    {
        match self.lookup(&game_id) {
            None => Err(GameError::PlayerCannotRequestInfoOnInexistentGame),
            Some(i) => {
                assert(valid(self@[i as int].1));
                Ok(GGMResponse::ShowGeneralInfo(self.map[i].1.info()))
            },
        }
    }

    /// Runs the command `command` with arguments `args`, sent by `user_id`
    /// in room `channel_id`.
    pub fn execute(
        &mut self,
        channel_id: String,
        user_id: String,
        command: &str,
        args: Vec<&str>,
    ) -> (r: Result<GGMResponse, GameError>)
        requires
            old(self).well_formed(),
        ensures
            final(self).well_formed(),
            command@ == "g!create"@ ==> create_post(
                old(self)@,
                final(self)@,
                channel_id@,
                user_id@,
                if args@.len() == 0 { 0 } else { stake_arg(args@[0].spec_bytes()) },
                r,
            ),
            command@ == "g!join"@ ==> join_post(old(self)@, final(self)@, channel_id@, user_id@, r),
            command@ == "g!play"@ ==> play_post(old(self)@, final(self)@, channel_id@, r),
            command@ == "g!roll"@ ==> roll_post(old(self)@, final(self)@, channel_id@, user_id@, r),
            command@ == "g!help"@ ==> (r matches Ok(GGMResponse::Message(m)) && m@ == HELP@)
                && final(self)@ == old(self)@,
            command@ == "g!info"@ ==> info_post(old(self)@, channel_id@, r) && final(self)@
                == old(self)@,
            !is_command(command@) ==> r == Err::<GGMResponse, GameError>(
                GameError::UnknownCommand,
            ) && final(self)@ == old(self)@,
    {
        proof {
            reveal_strlit("g!create");
            reveal_strlit("g!join");
            reveal_strlit("g!play");
            reveal_strlit("g!roll");
            reveal_strlit("g!help");
            reveal_strlit("g!info");
            assert("g!create"@.len() == 8);
            assert("g!join"@.len() == 6 && "g!join"@[2] == 'j');
            assert("g!play"@.len() == 6 && "g!play"@[2] == 'p');
            assert("g!roll"@.len() == 6 && "g!roll"@[2] == 'r');
            assert("g!help"@.len() == 6 && "g!help"@[2] == 'h');
            assert("g!info"@.len() == 6 && "g!info"@[2] == 'i');
        }
        if is_word(command, "g!create") {
            let max_roll = if args.len() == 0 { 0 } else { parse_stake(args[0]) };
            self.create(channel_id, user_id, max_roll)
        } else if is_word(command, "g!join") {
            self.join(channel_id, user_id)
        } else if is_word(command, "g!play") {
            self.play(channel_id)
        } else if is_word(command, "g!roll") {
            self.roll(channel_id, user_id)
        } else if is_word(command, "g!help") {
            Ok(GGMResponse::Message(help()))
        } else if is_word(command, "g!info") {
            self.info(channel_id)
        } else {
            Err(GameError::UnknownCommand)
        }
    }
}

impl Default for GambleGameManager {
    fn default() -> (r: Self)
        ensures
            r@ == Seq::<(Seq<char>, GameView)>::empty(),
            r.well_formed(),
    {
        Self::new()
    }
}

} // verus!
