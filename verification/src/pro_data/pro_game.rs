use vstd::prelude::*;

use crate::pro_data::{Pro, RankedStats};
use crate::text::{dec_seq, two_digit_seq, two_digit_string};
use vstd::string::{StringExecFns, StringSliceAdditionalSpecFns};
use chrono::Timelike;

verus! {

/// The side a participant plays on.
#[derive(Clone, Copy, PartialEq, Eq, Structural, Debug)]
pub enum Side {
    Blue,
    Red,
    Other,
}

/// One of the ten participants of a live match, as the remote current-match
/// snapshot reports it.
#[derive(Clone, Debug)]
pub struct CurrentGameParticipant {
    pub team_id: Side,
    pub champion_id: i32,
    pub champion_name: String,
    pub summoner_id: String,
    pub summoner_name: String,
}

/// A champion ban of a live match; a side may decline a ban, leaving no name.
#[derive(Clone, Debug)]
pub struct BannedChampion {
    pub team_id: Side,
    pub champion_name: Option<String>,
}

/// The remote service's snapshot of one live match.
#[derive(Clone, Debug)]
pub struct CurrentGameInfo {
    pub game_queue_config_id: Option<u64>,
    pub game_start_time: u64,
    pub game_length: u64,
    pub participants: Vec<CurrentGameParticipant>,
    pub banned_champions: Vec<BannedChampion>,
}

/// A match participant together with the rank record found for it, if any.
#[derive(Clone, Debug)]
pub struct Player {
    pub rank: Option<RankedStats>,
    pub current_game_participant: CurrentGameParticipant,
}

impl Player {
    /// Pair a participant with its rank record.
    pub fn new(current_game_participant: CurrentGameParticipant, rank: Option<RankedStats>) -> (r:
        Player)
        ensures
            r == (Player { rank, current_game_participant }),
    {
        Player { rank, current_game_participant }
    }

    /// The rank record attached to this player, if any.
    pub fn rank(&self) -> (r: &Option<RankedStats>)
        ensures
            r == &self.rank,
    {
        &self.rank
    }

    /// Any rank record carried by the player is within range.
    pub open spec fn wf(self) -> bool {
        self.rank matches Some(st) ==> st.wf()
    }
}

/// The players of one side, in participant order.
pub open spec fn team_seq(players: Seq<Player>, side: Side) -> Seq<Player>
    decreases players.len(),
{
    if players.len() == 0 {
        Seq::empty()
    } else {
        let rest = team_seq(players.drop_last(), side);
        if players.last().current_game_participant.team_id == side {
            rest.push(players.last())
        } else {
            rest
        }
    }
}

/// The participants of one side, in order.
pub open spec fn participant_team_seq(
    parts: Seq<CurrentGameParticipant>,
    side: Side,
) -> Seq<CurrentGameParticipant>
    decreases parts.len(),
{
    if parts.len() == 0 {
        Seq::empty()
    } else {
        let rest = participant_team_seq(parts.drop_last(), side);
        if parts.last().team_id == side {
            rest.push(parts.last())
        } else {
            rest
        }
    }
}

/// The first player whose account identifier is `id`.
pub open spec fn find_player(players: Seq<Player>, id: Seq<char>) -> Option<Player>
    decreases players.len(),
{
    if players.len() == 0 {
        None
    } else if players[0].current_game_participant.summoner_id@ == id {
        Some(players[0])
    } else {
        find_player(players.drop_first(), id)
    }
}

/// Whether a tracked pro carries exactly this account identifier.
pub open spec fn pro_has_id(p: Pro, id: Seq<char>) -> bool {
    p.summoner_id matches Some(s) && s@ == id
}

/// The first tracked pro of the match whose account identifier is `id`.
pub open spec fn find_pro(pros: Seq<Pro>, id: Seq<char>) -> Option<Pro>
    decreases pros.len(),
{
    if pros.len() == 0 {
        None
    } else if pro_has_id(pros[0], id) {
        Some(pros[0])
    } else {
        find_pro(pros.drop_first(), id)
    }
}

/// How many of the players carry a rank record.
pub open spec fn ranked_count(players: Seq<Player>) -> nat
    decreases players.len(),
{
    if players.len() == 0 {
        0
    } else {
        ranked_count(players.drop_last()) + if players.last().rank is Some {
            1nat
        } else {
            0nat
        }
    }
}

/// The league points of the ranked players, summed.
pub open spec fn lp_sum(players: Seq<Player>) -> nat
    decreases players.len(),
{
    if players.len() == 0 {
        0
    } else {
        lp_sum(players.drop_last()) + match players.last().rank {
            Some(st) => st.league_points as nat,
            None => 0nat,
        }
    }
}

/// The mathematical content of a discovered match.
pub ghost struct GameView {
    pub game_queue_config_id: Option<u64>,
    pub game_start_time: u64,
    pub game_length: u64,
    pub players: Seq<Player>,
    pub pro_players: Seq<Pro>,
    pub banned_champions: Seq<BannedChampion>,
}

/// A discovered qualifying match: its ten players, the tracked pros found
/// among them, and the match metadata. Never mutated after construction.
#[derive(Clone, Debug)]
pub struct ProGame {
    pub game_queue_config_id: Option<u64>,
    pub game_start_time: u64,
    pub game_length: u64,
    pub players: Vec<Player>,
    pub pro_players: Vec<Pro>,
    pub banned_champions: Vec<BannedChampion>,
}

impl View for ProGame {
    type V = GameView;

    open spec fn view(&self) -> GameView {
        GameView {
            game_queue_config_id: self.game_queue_config_id,
            game_start_time: self.game_start_time,
            game_length: self.game_length,
            players: self.players@,
            pro_players: self.pro_players@,
            banned_champions: self.banned_champions@,
        }
    }
}

impl GameView {
    /// Ten players, split five and five by side; every rank record in range;
    /// every tracked pro of the match resolvable by its identifier.
    pub open spec fn wf(self) -> bool {
        &&& self.players.len() == 10
        &&& team_seq(self.players, Side::Blue).len() == 5
        &&& team_seq(self.players, Side::Red).len() == 5
        &&& forall|i: int| 0 <= i < self.players.len() ==> (#[trigger] self.players[i]).wf()
        &&& forall|i: int|
            0 <= i < self.pro_players.len() ==> (#[trigger] self.pro_players[i]).summoner_id
                is Some
    }
}

impl ProGame {
    /// The two sides of the match, blue first, each with exactly five
    /// players, in participant order.
    pub fn teams(&self) -> (r: (Vec<&Player>, Vec<&Player>))
        requires
            self@.wf(),
        ensures
            r.0@.map_values(|p: &Player| *p) == team_seq(self@.players, Side::Blue),
            r.1@.map_values(|p: &Player| *p) == team_seq(self@.players, Side::Red),
            r.0@.len() == 5,
            r.1@.len() == 5,
    {
        let mut blue: Vec<&Player> = Vec::new();
        let mut red: Vec<&Player> = Vec::new();
        let n = self.players.len();
        let mut i: usize = 0;
        while i < n
            invariant
                i <= n,
                n == self.players@.len(),
                blue@.map_values(|p: &Player| *p) == team_seq(
                    self.players@.subrange(0, i as int),
                    Side::Blue,
                ),
                red@.map_values(|p: &Player| *p) == team_seq(
                    self.players@.subrange(0, i as int),
                    Side::Red,
                ),
            decreases n - i,
        {
            let player = &self.players[i];
            match player.current_game_participant.team_id {
                Side::Blue => blue.push(player),
                Side::Red => red.push(player),
                Side::Other => (),
            }
            proof {
                let prefix = self.players@.subrange(0, i as int);
                let extended = self.players@.subrange(0, i + 1);
                assert(extended.drop_last() =~= prefix);
                assert(extended.last() == self.players@[i as int]);
                assert(blue@.map_values(|p: &Player| *p) =~= team_seq(extended, Side::Blue));
                assert(red@.map_values(|p: &Player| *p) =~= team_seq(extended, Side::Red));
            }
            i = i + 1;
        }
        proof {
            assert(self.players@.subrange(0, n as int) =~= self.players@);
        }
        (blue, red)
    }

    /// The tracked pro participating under this account identifier, if any.
    pub fn get_pro(&self, summoner_id: &String) -> (r: Option<&Pro>)
        ensures
            match r {
                Some(p) => find_pro(self@.pro_players, summoner_id@) == Some(*p),
                None => find_pro(self@.pro_players, summoner_id@) is None,
            },
    {
        let n = self.pro_players.len();
        let mut i: usize = 0;
        proof {
            assert(self.pro_players@.skip(0) =~= self.pro_players@);
        }
        while i < n
            invariant
                i <= n,
                n == self.pro_players@.len(),
                find_pro(self.pro_players@, summoner_id@) == find_pro(
                    self.pro_players@.skip(i as int),
                    summoner_id@,
                ),
            decreases n - i,
        {
            let candidate = &self.pro_players[i];
            let hit = match &candidate.summoner_id {
                Some(id) => *id == *summoner_id,
                None => false,
            };
            proof {
                let suffix = self.pro_players@.skip(i as int);
                assert(suffix[0] == self.pro_players@[i as int]);
                assert(suffix.drop_first() =~= self.pro_players@.skip(i + 1));
            }
            if hit {
                return Some(candidate);
            }
            i = i + 1;
        }
        proof {
            assert(self.pro_players@.skip(n as int) =~= Seq::<Pro>::empty());
        }
        None
    }

    /// The player participating under this account identifier, if any.
    pub fn get_player(&self, summoner_id: &String) -> (r: Option<&Player>)
        ensures
            match r {
                Some(p) => find_player(self@.players, summoner_id@) == Some(*p),
                None => find_player(self@.players, summoner_id@) is None,
            },
    {
        let n = self.players.len();
        let mut i: usize = 0;
        proof {
            assert(self.players@.skip(0) =~= self.players@);
        }
        while i < n
            invariant
                i <= n,
                n == self.players@.len(),
                find_player(self.players@, summoner_id@) == find_player(
                    self.players@.skip(i as int),
                    summoner_id@,
                ),
            decreases n - i,
        {
            let candidate = &self.players[i];
            proof {
                let suffix = self.players@.skip(i as int);
                assert(suffix[0] == self.players@[i as int]);
                assert(suffix.drop_first() =~= self.players@.skip(i + 1));
            }
            if candidate.current_game_participant.summoner_id == *summoner_id {
                return Some(candidate);
            }
            i = i + 1;
        }
        proof {
            assert(self.players@.skip(n as int) =~= Seq::<Player>::empty());
        }
        None
    }

    /// The league points of the player under this account identifier, if the
    /// match has such a player and it carries a rank record.
    pub fn get_lp(&self, summoner_id: &String) -> (r: Option<u32>)
        ensures
            r == match find_player(self@.players, summoner_id@) {
                Some(p) => match p.rank {
                    Some(st) => Some(st.league_points),
                    None => None::<u32>,
                },
                None => None::<u32>,
            },
    {
        let player = match self.get_player(summoner_id) {
            Some(p) => p,
            None => {
                return None;
            },
        };
        match &player.rank {
            Some(st) => Some(st.league_points),
            None => None,
        }
    }

    /// The mean of the league points of the ranked players, or nothing when
    /// no player carries a rank record.
    pub fn average_lp(&self) -> (r: Option<u32>)
        requires
            self@.wf(),
        ensures
            r == if ranked_count(self@.players) == 0 {
                None::<u32>
            } else {
                Some((lp_sum(self@.players) / ranked_count(self@.players)) as u32)
            },
    {
        let n = self.players.len();
        let mut total: u64 = 0;
        let mut count: u64 = 0;
        let mut i: usize = 0;
        while i < n
            invariant
                i <= n,
                n == self.players@.len(),
                forall|j: int| 0 <= j < n ==> (#[trigger] self.players@[j]).wf(),
                count == ranked_count(self.players@.subrange(0, i as int)),
                total == lp_sum(self.players@.subrange(0, i as int)),
                count <= i,
                n <= 10,
                total <= count * 0x7fff_ffff,
            decreases n - i,
        {
            proof {
                let prefix = self.players@.subrange(0, i as int);
                let extended = self.players@.subrange(0, i + 1);
                assert(extended.drop_last() =~= prefix);
                assert(extended.last() == self.players@[i as int]);
            }
            match &self.players[i].rank {
                Some(st) => {
                    proof {
                        assert(self.players@[i as int].wf());
                        assert((count + 1) * 0x7fff_ffff == count * 0x7fff_ffff + 0x7fff_ffff)
                            by (nonlinear_arith);
                        assert((count + 1) * 0x7fff_ffff <= 10 * 0x7fff_ffff) by (nonlinear_arith)
                            requires
                                count + 1 <= 10,
                        ;
                    }
                    total = total + st.league_points as u64;
                    count = count + 1;
                },
                None => (),
            }
            i = i + 1;
        }
        proof {
            assert(self.players@.subrange(0, n as int) =~= self.players@);
        }
        if count == 0 {
            None
        } else {
            let mean = total / count;
            proof {
                assert(total / count <= 0x7fff_ffff) by (nonlinear_arith)
                    requires
                        count > 0,
                        total <= count * 0x7fff_ffff,
                ;
            }
            Some(mean as u32)
        }
    }
}

/// What a match clock reads: minutes, a colon, seconds, both zero-padded to
/// two digits.
pub open spec fn game_length_seq(game_length: nat) -> Seq<char> {
    two_digit_seq(game_length / 60).add(seq![':']).add(two_digit_seq(game_length % 60))
}

/// Format a match length, given in seconds, as a clock reading.
pub fn game_length_to_string(game_length: u64) -> (r: String)
    ensures
        r@ == game_length_seq(game_length as nat),
{
    let mut s = two_digit_string(game_length / 60);
    proof {
        reveal_strlit(":");
    }
    s.append(":");
    let seconds = two_digit_string(game_length % 60);
    s.append(seconds.as_str());
    proof {
        assert(s@ =~= game_length_seq(game_length as nat));
    }
    s
}

/// A time of day printed as hours, minutes and seconds, each zero-padded to
/// two digits and separated by colons.
pub open spec fn hms_seq(hour: nat, minute: nat, second: nat) -> Seq<char> {
    two_digit_seq(hour).add(seq![':']).add(two_digit_seq(minute)).add(seq![':']).add(
        two_digit_seq(second),
    )
}

/// Format a time of day.
pub fn format_hms(hour: u32, minute: u32, second: u32) -> (r: String)
    ensures
        r@ == hms_seq(hour as nat, minute as nat, second as nat),
{
    proof {
        reveal_strlit(":");
    }
    let mut s = two_digit_string(hour as u64);
    s.append(":");
    let m = two_digit_string(minute as u64);
    s.append(m.as_str());
    s.append(":");
    let sec = two_digit_string(second as u64);
    s.append(sec.as_str());
    proof {
        assert(s@ =~= hms_seq(hour as nat, minute as nat, second as nat));
    }
    s
}

/// Relies on chrono: converts a timestamp in epoch milliseconds to the
/// machine's local time zone and reads its hour, minute and second. The
/// result depends on the machine's time zone, so only its ranges are stated.
#[verifier::external_body]
fn local_time_of_day(epoch_ms: u64) -> (r: (u32, u32, u32))
    requires
        epoch_ms < 100_000_000_000_000,
    ensures
        r.0 < 24,
        r.1 < 60,
        r.2 < 60,
{
    let datetime = chrono::TimeZone::timestamp_millis_opt(&chrono::Local, epoch_ms as i64)
        .unwrap();
    (datetime.hour(), datetime.minute(), datetime.second())
}

/// Format a match start time, given in epoch milliseconds, as the local
/// time of day it began.
pub fn start_time_to_string(start_time: u64) -> (r: String)
    requires
        start_time < 100_000_000_000_000,
    ensures
        exists|h: nat, m: nat, sec: nat| h < 24 && m < 60 && sec < 60 && r@ == hms_seq(h, m, sec),
{
    let parts = local_time_of_day(start_time);
    let r = format_hms(parts.0, parts.1, parts.2);
    proof {
        assert(r@ == hms_seq(parts.0 as nat, parts.1 as nat, parts.2 as nat));
    }
    r
}

/// What stripping ANSI escape sequences from the characters leaves, as
/// strip_ansi_escapes computes it; it depends on the characters alone.
pub uninterp spec fn ansi_stripped_of(s: Seq<char>) -> Seq<u8>;

/// Relies on strip_ansi_escapes::strip: drops escape sequences and keeps the
/// remaining characters, a function of the input characters alone, so the
/// result is never longer than the input's encoding.
#[verifier::external_body]
fn strip_ansi(s: &str) -> (r: Vec<u8>)
    ensures
        r@ == ansi_stripped_of(s@),
        r@.len() <= s.spec_bytes().len(),
{
    strip_ansi_escapes::strip(s)
}

/// How many bytes of the string belong to ANSI escape sequences.
pub fn ansicode_length(s: &str) -> (r: usize)
    ensures
        r == s.spec_bytes().len() - ansi_stripped_of(s@).len(),
{
    let bytes = s.as_bytes();
    let total = bytes.len();
    let stripped = strip_ansi(s);
    total - stripped.len()
}

/// The label of one participant: the champion and the account display name,
/// preceded by the tracked pro's name in angle brackets when there is one.
pub open spec fn participant_label_seq(p: CurrentGameParticipant, is_pro: (bool, Seq<char>)) -> Seq<
    char,
> {
    let tail = p.champion_name@.add(seq![' ', '[']).add(p.summoner_name@).add(seq![']']);
    if is_pro.0 {
        seq!['<'].add(is_pro.1).add(seq!['>', ' ']).add(tail)
    } else {
        tail
    }
}

/// Format one participant for display, naming the tracked pro when the
/// participant is one.
pub fn participant_to_string(participant: &CurrentGameParticipant, is_pro: (bool, &str)) -> (r:
    String)
    ensures
        r@ == participant_label_seq(*participant, (is_pro.0, is_pro.1@)),
{
    proof {
        reveal_strlit("<");
        reveal_strlit("> ");
        reveal_strlit(" [");
        reveal_strlit("]");
    }
    let mut result = String::new();
    if is_pro.0 {
        result.append("<");
        result.append(is_pro.1);
        result.append("> ");
    }
    result.append(participant.champion_name.as_str());
    result.append(" [");
    result.append(participant.summoner_name.as_str());
    result.append("]");
    proof {
        assert(result@ =~= participant_label_seq(*participant, (is_pro.0, is_pro.1@)));
    }
    result
}

/// The bans of one side, in order.
pub open spec fn ban_team_seq(bans: Seq<BannedChampion>, side: Side) -> Seq<BannedChampion>
    decreases bans.len(),
{
    if bans.len() == 0 {
        Seq::empty()
    } else {
        let rest = ban_team_seq(bans.drop_last(), side);
        if bans.last().team_id == side {
            rest.push(bans.last())
        } else {
            rest
        }
    }
}

/// The label of one ban: the champion's name, or "None" for a declined ban.
pub open spec fn ban_label(b: BannedChampion) -> Seq<char> {
    match b.champion_name {
        Some(n) => n@,
        None => seq!['N', 'o', 'n', 'e'],
    }
}

/// The labels of a side's bans, joined by comma and space.
pub open spec fn joined_ban_labels(bans: Seq<BannedChampion>) -> Seq<char>
    decreases bans.len(),
{
    if bans.len() == 0 {
        Seq::empty()
    } else if bans.len() == 1 {
        ban_label(bans[0])
    } else {
        joined_ban_labels(bans.drop_last()).add(seq![',', ' ']).add(ban_label(bans.last()))
    }
}

/// Format the banned champions of a match, one comma-separated list for each
/// side. Every ban must belong to a side and each side must have banned at
/// least once.
pub fn banned_champions_to_string(banned_champions: &Vec<BannedChampion>) -> (r: (String, String))
    requires
        forall|i: int|
            0 <= i < banned_champions@.len() ==> (#[trigger] banned_champions@[i]).team_id
                != Side::Other,
        ban_team_seq(banned_champions@, Side::Blue).len() > 0,
        ban_team_seq(banned_champions@, Side::Red).len() > 0,
    ensures
        r.0@ == joined_ban_labels(ban_team_seq(banned_champions@, Side::Blue)),
        r.1@ == joined_ban_labels(ban_team_seq(banned_champions@, Side::Red)),
{
    proof {
        reveal_strlit(", ");
        reveal_strlit("None");
    }
    let mut blue = String::new();
    let mut red = String::new();
    let mut blue_count: usize = 0;
    let mut red_count: usize = 0;
    let n = banned_champions.len();
    let mut i: usize = 0;
    while i < n
        invariant
            i <= n,
            n == banned_champions@.len(),
            blue_count == ban_team_seq(banned_champions@.subrange(0, i as int), Side::Blue).len(),
            red_count == ban_team_seq(banned_champions@.subrange(0, i as int), Side::Red).len(),
            blue_count <= i,
            red_count <= i,
            blue@ == joined_ban_labels(ban_team_seq(banned_champions@.subrange(0, i as int), Side::Blue)),
            red@ == joined_ban_labels(ban_team_seq(banned_champions@.subrange(0, i as int), Side::Red)),
        decreases n - i,
    {
        proof {
            reveal_strlit(", ");
            reveal_strlit("None");
            let prefix = banned_champions@.subrange(0, i as int);
            let extended = banned_champions@.subrange(0, i + 1);
            assert(extended.drop_last() =~= prefix);
            assert(extended.last() == banned_champions@[i as int]);
        }
        let ban = &banned_champions[i];
        match ban.team_id {
            Side::Blue => {
                if blue_count > 0 {
                    blue.append(", ");
                }
                match &ban.champion_name {
                    Some(name) => blue.append(name.as_str()),
                    None => blue.append("None"),
                }
                blue_count = blue_count + 1;
            },
            Side::Red => {
                if red_count > 0 {
                    red.append(", ");
                }
                match &ban.champion_name {
                    Some(name) => red.append(name.as_str()),
                    None => red.append("None"),
                }
                red_count = red_count + 1;
            },
            Side::Other => (),
        }
        proof {
            let prefix = banned_champions@.subrange(0, i as int);
            let extended = banned_champions@.subrange(0, i + 1);
            let b = banned_champions@[i as int];
            assert(extended.drop_last() =~= prefix);
            let blue_prefix = ban_team_seq(prefix, Side::Blue);
            let blue_extended = ban_team_seq(extended, Side::Blue);
            let red_prefix = ban_team_seq(prefix, Side::Red);
            let red_extended = ban_team_seq(extended, Side::Red);
            if b.team_id == Side::Blue {
                assert(blue_extended =~= blue_prefix.push(b));
                assert(blue_extended.drop_last() =~= blue_prefix);
                assert(red_extended =~= red_prefix);
            } else if b.team_id == Side::Red {
                assert(red_extended =~= red_prefix.push(b));
                assert(red_extended.drop_last() =~= red_prefix);
                assert(blue_extended =~= blue_prefix);
            } else {
                assert(blue_extended =~= blue_prefix);
                assert(red_extended =~= red_prefix);
            }
            assert(blue@ =~= joined_ban_labels(blue_extended));
            assert(red@ =~= joined_ban_labels(red_extended));
        }
        i = i + 1;
    }
    proof {
        assert(banned_champions@.subrange(0, n as int) =~= banned_champions@);
    }
    (blue, red)
}

} // verus!
