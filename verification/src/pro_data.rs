use vstd::prelude::*;

use crate::id_map::IdMap;
use crate::pro_data::pro_game::{CurrentGameInfo, CurrentGameParticipant, GameView, Player, ProGame, Side};
use crate::pro_data::top_leagues::{LeagueEntry, Tier, TopLeagues};
use crate::text::{dec_seq, dec_string, to_uppercase_string, upper_of};
use vstd::string::StringExecFns;

pub mod io;
pub mod pro_game;
pub mod top_leagues;

verus! {

/// The team a tracked pro plays for.
#[derive(Clone, Debug)]
pub struct Team {
    pub short_name: String,
    pub full_name: String,
}

impl Team {
    /// A team record; the short code is kept in uppercase.
    pub fn new(short_name: String, full_name: String) -> (r: Team)
        ensures
            r.short_name@ == upper_of(short_name@),
            r.full_name == full_name,
    {
        Team { short_name: to_uppercase_string(short_name.as_str()), full_name }
    }
}

/// A tracked competitive player. The account identifier is absent while the
/// roster row has not been resolved against the identity service.
#[derive(Clone, Debug)]
pub struct Pro {
    pub player_name: String,
    pub team: Team,
    pub summoner_name: String,
    pub summoner_id: Option<String>,
}

impl Pro {
    /// A pro record; an empty identifier string means "not yet resolvable".
    pub fn new(player_name: String, team: Team, summoner_name: String, summoner_id_str: String) -> (r:
        Pro)
        ensures
            r.player_name == player_name,
            r.team == team,
            r.summoner_name == summoner_name,
            r.summoner_id == if summoner_id_str@.len() == 0 {
                None::<String>
            } else {
                Some(summoner_id_str)
            },
    {
        let summoner_id = if summoner_id_str.as_str().is_empty() {
            None
        } else {
            Some(summoner_id_str)
        };
        Pro { player_name, team, summoner_name, summoner_id }
    }
}

/// The rank record of one account: its tier and current season record.
#[derive(Clone, Copy, Debug)]
pub struct RankedStats {
    pub tier: Tier,
    pub league_points: u32,
    pub wins: u32,
    pub losses: u32,
}

impl RankedStats {
    /// The counters fit in 31 bits, as the remote service delivers them.
    pub open spec fn wf(self) -> bool {
        &&& self.league_points <= 0x7fff_ffff
        &&& self.wins <= 0x7fff_ffff
        &&& self.losses <= 0x7fff_ffff
    }

    /// How many games the record covers.
    pub fn games_played(&self) -> (r: u32)
        requires
            self.wf(),
        ensures
            r == self.wins + self.losses,
    {
        self.wins + self.losses
    }
}

/// A remote request failed. An authorization failure is fatal for the whole
/// run; any other failure is transient and only skips the pro at hand.
#[derive(Clone, Copy, PartialEq, Eq, Structural, Debug)]
pub enum RemoteError {
    Authorization,
    Transient,
}

/// Why resolving a pro's live match failed.
#[derive(Clone, Copy, PartialEq, Eq, Structural, Debug)]
pub enum FetchError {
    /// The pro has no account identifier, so no lookup can be attempted.
    MissingSummonerId,
    /// The current-match request itself failed.
    Remote(RemoteError),
    /// A qualifying match did not split into five players per side.
    InvariantViolation,
}

/// The live-match resolver: the roster, the rank overlay, the matches
/// discovered so far and the dedup cache mapping account identifiers to
/// indices into the match store.
pub struct ProData {
    pub top_leagues: TopLeagues,
    pub pros: IdMap<Pro>,
    pub games: Vec<ProGame>,
    pub pros_in_game: IdMap<usize>,
}

/// The mathematical content of the resolver state.
#[verifier::ext_equal]
pub ghost struct ProDataView {
    pub leagues: Map<Seq<char>, RankedStats>,
    pub pros: Map<Seq<char>, Pro>,
    pub pro_entries: Seq<(String, Pro)>,
    pub games: Seq<GameView>,
    pub cache: Map<Seq<char>, usize>,
}

impl View for ProData {
    type V = ProDataView;

    open spec fn view(&self) -> ProDataView {
        ProDataView {
            leagues: self.top_leagues.players@,
            pros: self.pros@,
            pro_entries: self.pros.entries@,
            games: self.games@.map_values(|g: ProGame| g@),
            cache: self.pros_in_game@,
        }
    }
}

/// A roster key carries the identifier of its pro: a non-empty key is the
/// pro's identifier, and the empty key marks a pro with none.
pub open spec fn roster_entry_ok(id: Seq<char>, p: Pro) -> bool {
    if id.len() == 0 {
        p.summoner_id is None
    } else {
        p.summoner_id matches Some(s) && s@ == id
    }
}

impl ProDataView {
    /// The resolver invariant:
    /// every roster entry is keyed by its pro's identifier;
    /// every rank record is in range;
    /// every stored match is well formed;
    /// every cache entry points into the match store, at a match in which the
    /// cached identifier actually plays as a tracked pro;
    /// every tracked pro of every stored match is cached.
    pub open spec fn inv(self) -> bool {
        &&& self.games.len() <= usize::MAX
        &&& forall|id: Seq<char>|
            self.pros.dom().contains(id) ==> roster_entry_ok(id, #[trigger] self.pros[id])
        &&& forall|id: Seq<char>|
            self.leagues.dom().contains(id) ==> (#[trigger] self.leagues[id]).wf()
        &&& forall|i: int| 0 <= i < self.games.len() ==> (#[trigger] self.games[i]).wf()
        &&& forall|id: Seq<char>| #[trigger]
            self.cache.dom().contains(id) ==> self.cache[id] < self.games.len()
                && game_lists_pro_id(self.games[self.cache[id] as int], id)
        &&& forall|i: int, j: int|
            0 <= i < self.games.len() && 0 <= j < self.games[i].pro_players.len()
                ==> self.cache.dom().contains(
                (#[trigger] self.games[i].pro_players[j]).summoner_id->Some_0@,
            )
    }
}

/// Whether the match lists a tracked pro under this account identifier.
pub open spec fn game_lists_pro_id(g: GameView, id: Seq<char>) -> bool {
    exists|j: int|
        0 <= j < g.pro_players.len() && pro_game::pro_has_id(#[trigger] g.pro_players[j], id)
}

impl ProData {
    /// Shorthand: the state satisfies the resolver invariant and its index
    /// structures are well formed.
    pub open spec fn wf(self) -> bool {
        &&& self.pros.wf()
        &&& self.pros_in_game.wf()
        &&& self.top_leagues.players.wf()
        &&& self@.inv()
    }

    /// The rank record for an account, if a top-tier ladder has it.
    pub fn ranked_stats(&self, summoner_id: &String) -> (r: Option<RankedStats>)
        requires
            self.wf(),
        ensures
            r == if self@.leagues.dom().contains(summoner_id@) {
                Some(self@.leagues[summoner_id@])
            } else {
                None::<RankedStats>
            },
    {
        self.top_leagues.get_rank(summoner_id)
    }

    /// The league points for an account in a top-tier ladder, if any.
    pub fn get_lp(&self, summoner_id: &String) -> (r: Option<u32>)
        requires
            self.wf(),
        ensures
            r == if self@.leagues.dom().contains(summoner_id@) {
                Some(self@.leagues[summoner_id@].league_points)
            } else {
                None::<u32>
            },
    {
        self.top_leagues.get_lp(summoner_id)
    }

    /// The tracked pros, in roster order.
    pub fn get_pros(&self) -> (r: Vec<Pro>)
        ensures
            r@ == self@.pro_entries.map_values(|e: (String, Pro)| e.1),
    {
        let n = self.pros.entries.len();
        let mut result: Vec<Pro> = Vec::new();
        let mut i: usize = 0;
        while i < n
            invariant
                i <= n,
                n == self.pros.entries@.len(),
                result@ == self.pros.entries@.subrange(0, i as int).map_values(
                    |e: (String, Pro)| e.1,
                ),
            decreases n - i,
        {
            let pro = duplicate_pro(&self.pros.entries[i].1);
            result.push(pro);
            proof {
                let prefix = self.pros.entries@.subrange(0, i as int);
                let extended = self.pros.entries@.subrange(0, i + 1);
                assert(extended =~= prefix.push(self.pros.entries@[i as int]));
                assert(result@ =~= extended.map_values(|e: (String, Pro)| e.1));
            }
            i = i + 1;
        }
        proof {
            assert(self.pros.entries@.subrange(0, n as int) =~= self.pros.entries@);
        }
        result
    }

    /// Whether a discovered match already covers this pro.
    pub fn is_in_game(&self, pro: &Pro) -> (r: bool)
        requires
            self.wf(),
        ensures
            r == (pro.summoner_id matches Some(id) && self@.cache.dom().contains(id@)),
    {
        match &pro.summoner_id {
            Some(id) => self.pros_in_game.contains_key(id),
            None => false,
        }
    }

    /// The discovered match stored at an index the resolver handed out.
    pub fn game_at(&self, index: usize) -> (r: &ProGame)
        requires
            index < self@.games.len(),
        ensures
            r@ == self@.games[index as int],
    {
        &self.games[index]
    }

    /// How many qualifying matches have been discovered.
    pub fn games_count(&self) -> (r: usize)
        ensures
            r == self@.games.len(),
    {
        self.games.len()
    }

    /// How many tracked pros are covered by a discovered match.
    pub fn pros_in_game_count(&self) -> (r: usize)
        ensures
            r == self.pros_in_game.entries@.len(),
    {
        self.pros_in_game.len()
    }

    /// How many pros the roster holds.
    pub fn pros_count(&self) -> (r: usize)
        ensures
            r == self.pros.entries@.len(),
    {
        self.pros.len()
    }
}

/// The queue classification of the designated ranked-solo queue.
pub const RANKED_SOLO_QUEUE_ID: u64 = 420;

/// A snapshot qualifies when its queue classification is the ranked-solo
/// queue; a snapshot that does not report one is not filtered out.
pub open spec fn queue_qualifies(queue: Option<u64>) -> bool {
    match queue {
        Some(q) => q == RANKED_SOLO_QUEUE_ID,
        None => true,
    }
}

/// The participants split into exactly five blue and five red players.
pub open spec fn snapshot_sides_ok(parts: Seq<CurrentGameParticipant>) -> bool {
    &&& parts.len() == 10
    &&& pro_game::participant_team_seq(parts, Side::Blue).len() == 5
    &&& pro_game::participant_team_seq(parts, Side::Red).len() == 5
}

/// The player built for a participant: the participant itself plus the rank
/// record the overlay holds for its account, if any.
pub open spec fn player_of(leagues: Map<Seq<char>, RankedStats>, p: CurrentGameParticipant) -> Player {
    Player {
        rank: if leagues.dom().contains(p.summoner_id@) {
            Some(leagues[p.summoner_id@])
        } else {
            None
        },
        current_game_participant: p,
    }
}

/// The ten players of a snapshot, in participant order.
pub open spec fn players_of(
    leagues: Map<Seq<char>, RankedStats>,
    parts: Seq<CurrentGameParticipant>,
) -> Seq<Player> {
    parts.map_values(|p: CurrentGameParticipant| player_of(leagues, p))
}

/// The tracked pros among the participants, in participant order: each
/// participant whose identifier the roster resolves to a pro carrying that
/// same identifier.
pub open spec fn matched_pros(
    pros: Map<Seq<char>, Pro>,
    parts: Seq<CurrentGameParticipant>,
) -> Seq<Pro>
    decreases parts.len(),
{
    if parts.len() == 0 {
        Seq::empty()
    } else {
        let rest = matched_pros(pros, parts.drop_last());
        let id = parts.last().summoner_id@;
        if pros.dom().contains(id) && pro_game::pro_has_id(pros[id], id) {
            rest.push(pros[id])
        } else {
            rest
        }
    }
}

/// The match aggregate built from a snapshot against the current state.
pub open spec fn game_of(v: ProDataView, info: CurrentGameInfo) -> GameView {
    GameView {
        game_queue_config_id: info.game_queue_config_id,
        game_start_time: info.game_start_time,
        game_length: info.game_length,
        players: players_of(v.leagues, info.participants@),
        pro_players: matched_pros(v.pros, info.participants@),
        banned_champions: info.banned_champions@,
    }
}

/// The cache after recording a freshly discovered match for its tracked
/// pros: each of their identifiers is pointed at `index`, except those the
/// cache already covers, which keep their earlier match.
pub open spec fn cache_with_game(
    cache: Map<Seq<char>, usize>,
    matched: Seq<Pro>,
    index: usize,
) -> Map<Seq<char>, usize>
    decreases matched.len(),
{
    if matched.len() == 0 {
        cache
    } else {
        let rest = cache_with_game(cache, matched.drop_last(), index);
        let id = matched.last().summoner_id->Some_0@;
        if rest.dom().contains(id) {
            rest
        } else {
            rest.insert(id, index)
        }
    }
}

/// What one resolution step does: the state after the call and the call's
/// result, as a function of the state, the pro, and the collaborator's
/// answer for that pro.
pub open spec fn fetch_game_step(
    v: ProDataView,
    pro: Pro,
    response: Result<Option<CurrentGameInfo>, RemoteError>,
) -> (ProDataView, Result<Option<usize>, FetchError>) {
    match pro.summoner_id {
        None => (v, Err(FetchError::MissingSummonerId)),
        Some(id) => if v.cache.dom().contains(id@) {
            (v, Ok(Some(v.cache[id@])))
        } else {
            match response {
                Err(e) => (v, Err(FetchError::Remote(e))),
                Ok(None) => (v, Ok(None)),
                Ok(Some(info)) => if !queue_qualifies(info.game_queue_config_id) {
                    (v, Ok(None))
                } else if !snapshot_sides_ok(info.participants@) {
                    (v, Err(FetchError::InvariantViolation))
                } else {
                    let game = game_of(v, info);
                    let index = v.games.len() as usize;
                    let v2 = ProDataView {
                        leagues: v.leagues,
                        pros: v.pros,
                        pro_entries: v.pro_entries,
                        games: v.games.push(game),
                        cache: cache_with_game(v.cache, game.pro_players, index),
                    };
                    (v2, Ok(Some(index)))
                },
            }
        },
    }
}

/// A field-for-field copy of a pro record.
pub fn duplicate_pro(p: &Pro) -> (r: Pro)
    ensures
        r == *p,
{
    let summoner_id = match &p.summoner_id {
        Some(id) => Some(id.clone()),
        None => None,
    };
    Pro {
        player_name: p.player_name.clone(),
        team: Team { short_name: p.team.short_name.clone(), full_name: p.team.full_name.clone() },
        summoner_name: p.summoner_name.clone(),
        summoner_id,
    }
}

/// A field-for-field copy of a participant record.
pub fn duplicate_participant(p: &CurrentGameParticipant) -> (r: CurrentGameParticipant)
    ensures
        r == *p,
{
    CurrentGameParticipant {
        team_id: p.team_id,
        champion_id: p.champion_id,
        champion_name: p.champion_name.clone(),
        summoner_id: p.summoner_id.clone(),
        summoner_name: p.summoner_name.clone(),
    }
}

impl ProData {
    /// The tracked pros among the participants, in participant order.
    fn find_pros_in_game(&self, game_info: &CurrentGameInfo) -> (r: Vec<Pro>)
        requires
            self.pros.wf(),
        ensures
            r@ == matched_pros(self@.pros, game_info.participants@),
    {
        let mut result: Vec<Pro> = Vec::new();
        let n = game_info.participants.len();
        let mut i: usize = 0;
        while i < n
            invariant
                i <= n,
                n == game_info.participants@.len(),
                self.pros.wf(),
                result@ == matched_pros(self@.pros, game_info.participants@.subrange(0, i as int)),
            decreases n - i,
        {
            let participant = &game_info.participants[i];
            match self.pros.get(&participant.summoner_id) {
                Some(pro) => {
                    let hit = match &pro.summoner_id {
                        Some(id) => *id == participant.summoner_id,
                        None => false,
                    };
                    if hit {
                        result.push(duplicate_pro(pro));
                    }
                },
                None => (),
            }
            proof {
                let prefix = game_info.participants@.subrange(0, i as int);
                let extended = game_info.participants@.subrange(0, i + 1);
                assert(extended.drop_last() =~= prefix);
                assert(extended.last() == game_info.participants@[i as int]);
                assert(result@ =~= matched_pros(self@.pros, extended));
            }
            i = i + 1;
        }
        proof {
            assert(game_info.participants@.subrange(0, n as int) =~= game_info.participants@);
        }
        result
    }

    /// The players for the ten participants, each with its rank attached.
    fn build_players(&self, parts: &Vec<CurrentGameParticipant>) -> (r: Vec<Player>)
        requires
            self.top_leagues.players.wf(),
        ensures
            r@ == players_of(self@.leagues, parts@),
    {
        let mut result: Vec<Player> = Vec::new();
        let n = parts.len();
        let mut i: usize = 0;
        while i < n
            invariant
                i <= n,
                n == parts@.len(),
                self.top_leagues.players.wf(),
                result@ == players_of(self@.leagues, parts@.subrange(0, i as int)),
            decreases n - i,
        {
            let participant = &parts[i];
            let rank = self.top_leagues.get_rank(&participant.summoner_id);
            result.push(Player::new(duplicate_participant(participant), rank));
            proof {
                let extended = parts@.subrange(0, i + 1);
                assert(result@ =~= players_of(self@.leagues, extended));
            }
            i = i + 1;
        }
        proof {
            assert(parts@.subrange(0, n as int) =~= parts@);
        }
        result
    }
}

/// How many participants play on the given side.
fn count_side(parts: &Vec<CurrentGameParticipant>, side: Side) -> (r: usize)
    ensures
        r == pro_game::participant_team_seq(parts@, side).len(),
{
    let n = parts.len();
    let mut count: usize = 0;
    let mut i: usize = 0;
    while i < n
        invariant
            i <= n,
            n == parts@.len(),
            count == pro_game::participant_team_seq(parts@.subrange(0, i as int), side).len(),
            count <= i,
        decreases n - i,
    {
        proof {
            let prefix = parts@.subrange(0, i as int);
            let extended = parts@.subrange(0, i + 1);
            assert(extended.drop_last() =~= prefix);
            assert(extended.last() == parts@[i as int]);
        }
        if parts[i].team_id == side {
            count = count + 1;
        }
        i = i + 1;
    }
    proof {
        assert(parts@.subrange(0, n as int) =~= parts@);
    }
    count
}

/// Point each tracked pro of a fresh match at its index, keeping any entry
/// the cache already holds.
fn cache_game(cache: &mut IdMap<usize>, matched: &Vec<Pro>, index: usize)
    requires
        old(cache).wf(),
        forall|j: int| 0 <= j < matched@.len() ==> (#[trigger] matched@[j]).summoner_id is Some,
    ensures
        final(cache).wf(),
        final(cache)@ == cache_with_game(old(cache)@, matched@, index),
{
    let n = matched.len();
    let mut i: usize = 0;
    while i < n
        invariant
            i <= n,
            n == matched@.len(),
            cache.wf(),
            forall|j: int| 0 <= j < matched@.len() ==> (#[trigger] matched@[j]).summoner_id is Some,
            cache@ == cache_with_game(old(cache)@, matched@.subrange(0, i as int), index),
        decreases n - i,
    {
        proof {
            let prefix = matched@.subrange(0, i as int);
            let extended = matched@.subrange(0, i + 1);
            assert(extended.drop_last() =~= prefix);
            assert(extended.last() == matched@[i as int]);
        }
        match &matched[i].summoner_id {
            Some(id) => {
                if !cache.contains_key(id) {
                    cache.insert(id.clone(), index);
                }
            },
            None => (),
        }
        i = i + 1;
    }
    proof {
        assert(matched@.subrange(0, n as int) =~= matched@);
    }
}

/// What the cache holds after a fresh match is recorded: the identifiers of
/// its tracked pros are added, existing entries win, nothing else changes.
pub proof fn lemma_cache_with_game(
    cache: Map<Seq<char>, usize>,
    matched: Seq<Pro>,
    index: usize,
    k: Seq<char>,
)
    requires
        forall|j: int| 0 <= j < matched.len() ==> (#[trigger] matched[j]).summoner_id is Some,
    ensures
        cache_with_game(cache, matched, index).dom().contains(k) <==> (cache.dom().contains(k)
            || exists|j: int|
            0 <= j < matched.len() && pro_game::pro_has_id(#[trigger] matched[j], k)),
        cache.dom().contains(k) ==> cache_with_game(cache, matched, index)[k] == cache[k],
        !cache.dom().contains(k) && (exists|j: int|
            0 <= j < matched.len() && pro_game::pro_has_id(#[trigger] matched[j], k))
            ==> cache_with_game(cache, matched, index)[k] == index,
    decreases matched.len(),
{
    if matched.len() > 0 {
        let prior = matched.drop_last();
        let last = matched.last();
        assert(forall|j: int| 0 <= j < prior.len() ==> prior[j] == matched[j]);
        lemma_cache_with_game(cache, prior, index, k);
        if pro_game::pro_has_id(last, k) {
            assert(last.summoner_id->Some_0@ == k);
            assert(pro_game::pro_has_id(matched[matched.len() - 1], k));
        } else {
            assert(last.summoner_id->Some_0@ != k);
            if exists|j: int| 0 <= j < matched.len() && pro_game::pro_has_id(#[trigger] matched[j], k) {
                let j = choose|j: int|
                    0 <= j < matched.len() && pro_game::pro_has_id(#[trigger] matched[j], k);
                assert(pro_game::pro_has_id(prior[j], k));
            } else {
                assert(forall|j: int|
                    0 <= j < prior.len() ==> !pro_game::pro_has_id(#[trigger] prior[j], k)) by {
                    assert(forall|j: int| 0 <= j < prior.len() ==> prior[j] == matched[j]);
                }
            }
        }
    }
}

/// Every tracked pro of a match carries an identifier, and the match lists
/// it under that identifier.
pub proof fn lemma_matched_pros_ids(pros: Map<Seq<char>, Pro>, parts: Seq<CurrentGameParticipant>)
    ensures
        forall|j: int|
            0 <= j < matched_pros(pros, parts).len() ==> (#[trigger] matched_pros(pros, parts)[j]).summoner_id is Some,
    decreases parts.len(),
{
    if parts.len() > 0 {
        lemma_matched_pros_ids(pros, parts.drop_last());
        let rest = matched_pros(pros, parts.drop_last());
        let whole = matched_pros(pros, parts);
        assert(forall|j: int| 0 <= j < rest.len() ==> whole[j] == rest[j]);
    }
}

/// If some participant carries identifier `id` and the roster resolves `id`
/// to a pro carrying it, that pro is among the match's tracked pros.
pub proof fn lemma_matched_pros_contains(
    pros: Map<Seq<char>, Pro>,
    parts: Seq<CurrentGameParticipant>,
    id: Seq<char>,
)
    requires
        pros.dom().contains(id),
        pro_game::pro_has_id(pros[id], id),
        exists|i: int| 0 <= i < parts.len() && (#[trigger] parts[i]).summoner_id@ == id,
    ensures
        exists|j: int|
            0 <= j < matched_pros(pros, parts).len() && pro_game::pro_has_id(
                #[trigger] matched_pros(pros, parts)[j],
                id,
            ),
    decreases parts.len(),
{
    let i = choose|i: int| 0 <= i < parts.len() && (#[trigger] parts[i]).summoner_id@ == id;
    let whole = matched_pros(pros, parts);
    let rest = matched_pros(pros, parts.drop_last());
    if i == parts.len() - 1 {
        assert(pro_game::pro_has_id(whole[whole.len() - 1], id));
    } else {
        assert(parts.drop_last()[i].summoner_id@ == id);
        lemma_matched_pros_contains(pros, parts.drop_last(), id);
        let j = choose|j: int|
            0 <= j < rest.len() && pro_game::pro_has_id(#[trigger] rest[j], id);
        assert(whole[j] == rest[j]);
        assert(pro_game::pro_has_id(whole[j], id));
    }
}

/// Players built for one side correspond one for one to the participants of
/// that side, so the split is preserved.
pub proof fn lemma_players_of_sides(
    leagues: Map<Seq<char>, RankedStats>,
    parts: Seq<CurrentGameParticipant>,
    side: Side,
)
    ensures
        pro_game::team_seq(players_of(leagues, parts), side).len()
            == pro_game::participant_team_seq(parts, side).len(),
    decreases parts.len(),
{
    if parts.len() > 0 {
        lemma_players_of_sides(leagues, parts.drop_last(), side);
        assert(players_of(leagues, parts).drop_last() =~= players_of(leagues, parts.drop_last()));
        assert(players_of(leagues, parts).last() == player_of(leagues, parts.last()));
    }
}

impl ProData {
    /// Resolve the live match of one tracked pro.
    ///
    /// `response` is the current-match collaborator's answer for this pro's
    /// identifier; when the pro is already covered by a discovered match the
    /// answer is not consulted, so no request needs to be made for it.
    /// The returned index can be handed to `game_at`.
    pub fn fetch_game(
        &mut self,
        pro: &Pro,
        response: Result<Option<CurrentGameInfo>, RemoteError>,
    ) -> (r: Result<Option<usize>, FetchError>)
        requires
            old(self).wf(),
        ensures
            final(self).wf(),
            final(self)@ == fetch_game_step(old(self)@, *pro, response).0,
            r == fetch_game_step(old(self)@, *pro, response).1,
    {
        let summoner_id = match &pro.summoner_id {
            Some(id) => id,
            None => {
                return Err(FetchError::MissingSummonerId);
            },
        };

        // A pro already covered by a discovered match is answered from the
        // cache; the collaborator's answer is not needed.
        match self.pros_in_game.get(summoner_id) {
            Some(index) => {
                return Ok(Some(*index));
            },
            None => (),
        }

        let info = match response {
            Err(e) => {
                return Err(FetchError::Remote(e));
            },
            Ok(None) => {
                return Ok(None);
            },
            Ok(Some(info)) => info,
        };

        // A match in another queue is found but not tracked.
        match info.game_queue_config_id {
            Some(q) => {
                if q != RANKED_SOLO_QUEUE_ID {
                    return Ok(None);
                }
            },
            None => (),
        }

        // A qualifying match must split five and five; anything else means
        // corrupt upstream data.
        let blue = count_side(&info.participants, Side::Blue);
        let red = count_side(&info.participants, Side::Red);
        if !(info.participants.len() == 10 && blue == 5 && red == 5) {
            return Err(FetchError::InvariantViolation);
        }

        let pro_players = self.find_pros_in_game(&info);
        let players = self.build_players(&info.participants);
        let game = ProGame {
            game_queue_config_id: info.game_queue_config_id,
            game_start_time: info.game_start_time,
            game_length: info.game_length,
            players,
            pro_players,
            banned_champions: info.banned_champions,
        };
        let index = self.games.len();

        proof {
            lemma_matched_pros_ids(old(self)@.pros, info.participants@);
        }
        cache_game(&mut self.pros_in_game, &game.pro_players, index);
        self.games.push(game);
        let stored_count = self.games.len();

        proof {
            assert(stored_count as int == old(self)@.games.len() + 1);
            assert(old(self)@.games.len() < usize::MAX);
            let v = old(self)@;
            let step = fetch_game_step(v, *pro, response);
            let g = game_of(v, info);
            assert(self.games@.map_values(|x: ProGame| x@) =~= v.games.push(g));
            assert(self@ =~= step.0);
            lemma_fetch_preserves_inv(v, *pro, response);
        }
        Ok(Some(index))
    }
}

/// One resolution step keeps the resolver invariant.
proof fn lemma_fetch_preserves_inv(
    v: ProDataView,
    pro: Pro,
    response: Result<Option<CurrentGameInfo>, RemoteError>,
)
    requires
        v.inv(),
        v.games.len() < usize::MAX,
    ensures
        fetch_game_step(v, pro, response).0.inv(),
{
    let step = fetch_game_step(v, pro, response);
    let v2 = step.0;
    if v2 != v {
        let info = response->Ok_0->Some_0;
        let g = game_of(v, info);
        let index = v.games.len() as usize;
        let matched = g.pro_players;
        lemma_matched_pros_ids(v.pros, info.participants@);
        assert(index as int == v.games.len());

        // The fresh match is well formed.
        assert(g.players.len() == 10);
        lemma_players_of_sides(v.leagues, info.participants@, Side::Blue);
        lemma_players_of_sides(v.leagues, info.participants@, Side::Red);
        assert(forall|i: int| 0 <= i < g.players.len() ==> (#[trigger] g.players[i]).wf());
        assert(g.wf());

        // Cache entries still point at a stored match listing their pro.
        assert(forall|k: Seq<char>| #[trigger]
            v2.cache.dom().contains(k) ==> v2.cache[k] < v2.games.len() && game_lists_pro_id(
                v2.games[v2.cache[k] as int],
                k,
            )) by {
            assert forall|k: Seq<char>| #[trigger] v2.cache.dom().contains(k) implies v2.cache[k]
                < v2.games.len() && game_lists_pro_id(v2.games[v2.cache[k] as int], k) by {
                lemma_cache_with_game(v.cache, matched, index, k);
                if v.cache.dom().contains(k) {
                    assert(v2.games[v.cache[k] as int] == v.games[v.cache[k] as int]);
                } else {
                    assert(v2.cache[k] == index);
                    assert(v2.games[index as int] == g);
                }
            }
        }

        // Every tracked pro of every stored match is cached.
        assert forall|i: int, j: int|
            0 <= i < v2.games.len() && 0 <= j < v2.games[i].pro_players.len() implies v2.cache.dom()
            .contains((#[trigger] v2.games[i].pro_players[j]).summoner_id->Some_0@) by {
            let p = v2.games[i].pro_players[j];
            lemma_cache_with_game(v.cache, matched, index, p.summoner_id->Some_0@);
            if i < v.games.len() {
                assert(v2.games[i] == v.games[i]);
                assert(v.cache.dom().contains(p.summoner_id->Some_0@));
            } else {
                assert(v2.games[i] == g);
                assert(pro_game::pro_has_id(matched[j], p.summoner_id->Some_0@));
            }
        }
    }
}

impl ProData {
    /// Build the resolver state: load the roster from the bytes of its
    /// tabular source and merge the three fetched ladder snapshots into the
    /// rank overlay. No match is discovered yet and the cache is empty.
    pub fn load(
        data: &[u8],
        master: Vec<LeagueEntry>,
        grandmaster: Vec<LeagueEntry>,
        challenger: Vec<LeagueEntry>,
    ) -> (r: ProData)
        requires
            forall|i: int| 0 <= i < master@.len() ==> top_leagues::entry_wf(#[trigger] master@[i]),
            forall|i: int|
                0 <= i < grandmaster@.len() ==> top_leagues::entry_wf(#[trigger] grandmaster@[i]),
            forall|i: int|
                0 <= i < challenger@.len() ==> top_leagues::entry_wf(#[trigger] challenger@[i]),
        ensures
            r.wf(),
            r@.leagues == top_leagues::merged_leagues(master@, grandmaster@, challenger@),
            r@.pros.dom() == io::roster_rows(io::csv_records_of(data@)).dom(),
            forall|id: Seq<char>| #[trigger]
                r@.pros.dom().contains(id) ==> io::row_pro_ok(
                    io::roster_rows(io::csv_records_of(data@))[id],
                    r@.pros[id],
                ),
            r@.games == Seq::<GameView>::empty(),
            r@.cache == Map::<Seq<char>, usize>::empty(),
    {
        let pros = io::load_pros(data);
        let top_leagues = TopLeagues::get(master, grandmaster, challenger);
        let r = ProData {
            top_leagues,
            pros,
            games: Vec::new(),
            pros_in_game: IdMap::new(),
        };
        proof {
            assert(r@.games =~= Seq::<GameView>::empty());
        }
        r
    }
}

/// The roster pros that carry a rank record, paired with it, in roster
/// order.
pub open spec fn ranked_pairs(
    leagues: Map<Seq<char>, RankedStats>,
    entries: Seq<(String, Pro)>,
) -> Seq<(Pro, RankedStats)>
    decreases entries.len(),
{
    if entries.len() == 0 {
        Seq::empty()
    } else {
        let rest = ranked_pairs(leagues, entries.drop_last());
        let pro = entries.last().1;
        match pro.summoner_id {
            Some(id) => if leagues.dom().contains(id@) {
                rest.push((pro, leagues[id@]))
            } else {
                rest
            },
            None => rest,
        }
    }
}

/// League points never increase along the sequence.
pub open spec fn sorted_by_lp_desc(s: Seq<(Pro, RankedStats)>) -> bool {
    forall|i: int, j: int|
        0 <= i < j < s.len() ==> (#[trigger] s[i]).1.league_points >= (#[trigger] s[j]).1.league_points
}

/// Index of an entry with the greatest league points.
fn max_lp_index(pairs: &Vec<(Pro, RankedStats)>) -> (r: usize)
    requires
        pairs@.len() > 0,
    ensures
        r < pairs@.len(),
        forall|j: int|
            0 <= j < pairs@.len() ==> pairs@[r as int].1.league_points >= (
            #[trigger] pairs@[j]).1.league_points,
{
    let n = pairs.len();
    let mut best: usize = 0;
    let mut i: usize = 1;
    while i < n
        invariant
            1 <= i <= n,
            best < i,
            n == pairs@.len(),
            forall|j: int|
                0 <= j < i ==> pairs@[best as int].1.league_points >= (
                #[trigger] pairs@[j]).1.league_points,
        decreases n - i,
    {
        if pairs[i].1.league_points > pairs[best].1.league_points {
            best = i;
        }
        i = i + 1;
    }
    best
}

/// Sort rank pairs by league points, greatest first, keeping exactly the
/// same entries.
fn sort_pairs_desc(pairs: Vec<(Pro, RankedStats)>) -> (r: Vec<(Pro, RankedStats)>)
    ensures
        sorted_by_lp_desc(r@),
        r@.to_multiset() == pairs@.to_multiset(),
{
    broadcast use vstd::seq_lib::group_to_multiset_ensures;

    let mut rest = pairs;
    let mut result: Vec<(Pro, RankedStats)> = Vec::new();
    proof {
        assert(result@.to_multiset().add(rest@.to_multiset()) =~= pairs@.to_multiset());
    }
    while rest.len() > 0
        invariant
            result@.to_multiset().add(rest@.to_multiset()) == pairs@.to_multiset(),
            sorted_by_lp_desc(result@),
            forall|i: int, j: int|
                0 <= i < result@.len() && 0 <= j < rest@.len() ==> (
                #[trigger] result@[i]).1.league_points >= (#[trigger] rest@[j]).1.league_points,
        decreases rest@.len(),
    {
        let idx = max_lp_index(&rest);
        let ghost old_rest = rest@;
        let ghost old_result = result@;
        let entry = rest.remove(idx);
        result.push(entry);
        proof {
            broadcast use vstd::seq_lib::group_to_multiset_ensures;

            assert(rest@ == old_rest.remove(idx as int));
            assert(old_rest.remove(idx as int).to_multiset() =~= old_rest.to_multiset().remove(
                entry,
            ));
            assert(result@ == old_result.push(entry));
            assert(old_result.push(entry).to_multiset() =~= old_result.to_multiset().insert(entry));
            assert(old_rest.contains(entry)) by {
                assert(old_rest[idx as int] == entry);
            }
            assert(old_rest.to_multiset().count(entry) > 0);
            assert(result@.to_multiset().add(rest@.to_multiset()) =~= old_result.to_multiset().add(
                old_rest.to_multiset(),
            ));
            assert(forall|j: int|
                0 <= j < rest@.len() ==> entry.1.league_points >= (
                #[trigger] rest@[j]).1.league_points) by {
                assert(forall|j: int|
                    0 <= j < rest@.len() ==> rest@[j] == old_rest[if j < idx {
                        j
                    } else {
                        j + 1
                    }]);
            }
        }
    }
    result
}

impl ProData {
    /// The tracked pros that are ranked in a top tier, with their rank
    /// records, ordered by league points with the greatest first.
    pub fn pro_leaderboard(&self) -> (r: Vec<(Pro, RankedStats)>)
        requires
            self.wf(),
        ensures
            sorted_by_lp_desc(r@),
            r@.to_multiset() == ranked_pairs(self@.leagues, self@.pro_entries).to_multiset(),
    {
        let mut pairs: Vec<(Pro, RankedStats)> = Vec::new();
        let n = self.pros.entries.len();
        let mut i: usize = 0;
        while i < n
            invariant
                i <= n,
                n == self.pros.entries@.len(),
                self.wf(),
                pairs@ == ranked_pairs(self@.leagues, self@.pro_entries.subrange(0, i as int)),
            decreases n - i,
        {
            proof {
                let prefix = self@.pro_entries.subrange(0, i as int);
                let extended = self@.pro_entries.subrange(0, i + 1);
                assert(extended.drop_last() =~= prefix);
                assert(extended.last() == self@.pro_entries[i as int]);
            }
            let pro = &self.pros.entries[i].1;
            match &pro.summoner_id {
                Some(id) => {
                    match self.top_leagues.get_rank(id) {
                        Some(stats) => {
                            pairs.push((duplicate_pro(pro), stats));
                        },
                        None => (),
                    }
                },
                None => (),
            }
            i = i + 1;
        }
        proof {
            assert(self@.pro_entries.subrange(0, n as int) =~= self@.pro_entries);
        }
        sort_pairs_desc(pairs)
    }
}

/// The short code of a tier: C1, GM or M.
pub open spec fn tier_code_seq(t: Tier) -> Seq<char> {
    match t {
        Tier::Challenger => seq!['C', '1'],
        Tier::Grandmaster => seq!['G', 'M'],
        Tier::Master => seq!['M'],
    }
}

/// The win rate in tenths of a percent, rounded to the nearest tenth with
/// halves rounded up.
pub open spec fn winrate_tenths(st: RankedStats) -> int {
    (st.wins * 1000 + (st.wins + st.losses) / 2) / (st.wins + st.losses)
}

/// One line describing a rank record: the tier code, the league points, the
/// games played and the win rate with one decimal.
pub open spec fn rank_display_seq(st: RankedStats) -> Seq<char> {
    tier_code_seq(st.tier).add(seq![' ']).add(dec_seq((st.league_points as nat))).add(
        seq!['L', 'P', ' '],
    ).add(dec_seq((st.wins + st.losses) as nat)).add(seq!['g', 'p', ' ']).add(
        dec_seq((winrate_tenths(st) / 10) as nat),
    ).add(seq!['.']).add(dec_seq((winrate_tenths(st) % 10) as nat)).add(seq!['%'])
}

impl Tier {
    /// The short code of the tier.
    pub fn short_code(&self) -> (r: String)
        ensures
            r@ == tier_code_seq(*self),
    {
        proof {
            reveal_strlit("C1");
            reveal_strlit("GM");
            reveal_strlit("M");
        }
        let r = match self {
            Tier::Challenger => "C1",
            Tier::Grandmaster => "GM",
            Tier::Master => "M",
        };
        proof {
            assert(r@ =~= tier_code_seq(*self));
        }
        r.to_owned()
    }
}

impl RankedStats {
    /// Format the record on one line, for a table cell.
    pub fn display_string(&self) -> (r: String)
        requires
            self.wf(),
            self.wins + self.losses > 0,
        ensures
            r@ == rank_display_seq(*self),
    {
        proof {
            reveal_strlit("LP ");
            reveal_strlit("gp ");
            reveal_strlit(".");
            reveal_strlit("%");
        }
        let games: u64 = self.wins as u64 + self.losses as u64;
        let tenths: u64 = (self.wins as u64 * 1000 + games / 2) / games;
        proof {
            assert(tenths == winrate_tenths(*self));
            assert(tenths <= 1000) by (nonlinear_arith)
                requires
                    tenths == ((self.wins as int) * 1000 + (games as int) / 2) / (games as int),
                    games > 0,
                    self.wins <= games,
            ;
        }
        let mut r = self.tier.short_code();
        r.append(" ");
        let lp = dec_string(self.league_points as u64);
        r.append(lp.as_str());
        r.append("LP ");
        let gp = dec_string(games);
        r.append(gp.as_str());
        r.append("gp ");
        let whole = dec_string(tenths / 10);
        r.append(whole.as_str());
        r.append(".");
        let fraction = dec_string(tenths % 10);
        r.append(fraction.as_str());
        r.append("%");
        proof {
            reveal_strlit(" ");
            assert(r@ =~= rank_display_seq(*self));
        }
        r
    }
}

impl Pro {
    /// The pro's display label: the team short code and the player's name.
    pub fn display_string(&self) -> (r: String)
        ensures
            r@ == self.team.short_name@.add(seq![' ']).add(self.player_name@),
    {
        proof {
            reveal_strlit(" ");
        }
        let mut r = self.team.short_name.clone();
        r.append(" ");
        r.append(self.player_name.as_str());
        proof {
            assert(r@ =~= self.team.short_name@.add(seq![' ']).add(self.player_name@));
        }
        r
    }
}

/// Resolving the same pro twice is idempotent: once a call has produced a
/// match for the pro, a second call returns the very same stored match and
/// leaves the state untouched, whatever the collaborator would answer — so
/// no second request is needed.
///
/// When the first call resolved a fresh match, that match must actually list
/// the pro among its participants and the roster must track the pro under
/// its identifier, as the remote service guarantees for a current-match
/// answer.
pub proof fn lemma_fetch_idempotent(
    v: ProDataView,
    pro: Pro,
    first_response: Result<Option<CurrentGameInfo>, RemoteError>,
    second_response: Result<Option<CurrentGameInfo>, RemoteError>,
    index: usize,
)
    requires
        v.inv(),
        v.games.len() < usize::MAX,
        pro.summoner_id is Some,
        fetch_game_step(v, pro, first_response).1 == Ok::<Option<usize>, FetchError>(Some(index)),
        first_response matches Ok(Some(info)) && !v.cache.dom().contains(
            pro.summoner_id->Some_0@,
        ) ==> {
            let id = pro.summoner_id->Some_0@;
            &&& v.pros.dom().contains(id)
            &&& pro_game::pro_has_id(v.pros[id], id)
            &&& exists|i: int|
                0 <= i < first_response->Ok_0->Some_0.participants@.len() && (
                #[trigger] first_response->Ok_0->Some_0.participants@[i]).summoner_id@ == id
        },
    ensures
        fetch_game_step(fetch_game_step(v, pro, first_response).0, pro, second_response) == (
        fetch_game_step(v, pro, first_response).0,
        Ok::<Option<usize>, FetchError>(Some(index)),
        ),
{
    let id = pro.summoner_id->Some_0@;
    let v1 = fetch_game_step(v, pro, first_response).0;
    if v.cache.dom().contains(id) {
        assert(v1 == v);
    } else {
        let info = first_response->Ok_0->Some_0;
        let matched = matched_pros(v.pros, info.participants@);
        lemma_matched_pros_ids(v.pros, info.participants@);
        lemma_matched_pros_contains(v.pros, info.participants@, id);
        lemma_cache_with_game(v.cache, matched, v.games.len() as usize, id);
        assert(v1.cache.dom().contains(id));
        assert(v1.cache[id] == index);
    }
}

/// The dedup invariant: when two tracked pros are both participants of the
/// same qualifying match and neither is covered yet, resolving either one
/// caches both under the same stored match, and resolving the other
/// afterwards returns that very match without consulting the collaborator's
/// answer and without changing the state.
pub proof fn lemma_dedup_shared_match(
    v: ProDataView,
    first: Pro,
    second: Pro,
    info: CurrentGameInfo,
    second_response: Result<Option<CurrentGameInfo>, RemoteError>,
)
    requires
        v.inv(),
        v.games.len() < usize::MAX,
        first.summoner_id is Some,
        second.summoner_id is Some,
        v.pros.dom().contains(first.summoner_id->Some_0@),
        pro_game::pro_has_id(v.pros[first.summoner_id->Some_0@], first.summoner_id->Some_0@),
        v.pros.dom().contains(second.summoner_id->Some_0@),
        pro_game::pro_has_id(v.pros[second.summoner_id->Some_0@], second.summoner_id->Some_0@),
        !v.cache.dom().contains(first.summoner_id->Some_0@),
        !v.cache.dom().contains(second.summoner_id->Some_0@),
        queue_qualifies(info.game_queue_config_id),
        snapshot_sides_ok(info.participants@),
        exists|i: int|
            0 <= i < info.participants@.len() && (#[trigger] info.participants@[i]).summoner_id@
                == first.summoner_id->Some_0@,
        exists|i: int|
            0 <= i < info.participants@.len() && (#[trigger] info.participants@[i]).summoner_id@
                == second.summoner_id->Some_0@,
    ensures
        ({
            let index = v.games.len() as usize;
            let outcome = fetch_game_step(v, first, Ok(Some(info)));
            &&& outcome.1 == Ok::<Option<usize>, FetchError>(Some(index))
            &&& outcome.0.cache.dom().contains(first.summoner_id->Some_0@)
            &&& outcome.0.cache[first.summoner_id->Some_0@] == index
            &&& outcome.0.cache.dom().contains(second.summoner_id->Some_0@)
            &&& outcome.0.cache[second.summoner_id->Some_0@] == index
            &&& fetch_game_step(outcome.0, second, second_response) == (
            outcome.0,
            Ok::<Option<usize>, FetchError>(Some(index)),
            )
        }),
{
    let index = v.games.len() as usize;
    let matched = matched_pros(v.pros, info.participants@);
    lemma_matched_pros_ids(v.pros, info.participants@);
    lemma_matched_pros_contains(v.pros, info.participants@, first.summoner_id->Some_0@);
    lemma_matched_pros_contains(v.pros, info.participants@, second.summoner_id->Some_0@);
    lemma_cache_with_game(v.cache, matched, index, first.summoner_id->Some_0@);
    lemma_cache_with_game(v.cache, matched, index, second.summoner_id->Some_0@);
}

/// Cache entries are write-once and the match store is append-only: a
/// resolution step never removes, repoints or rewrites anything already
/// stored, whatever the pro and whatever the collaborator answered.
pub proof fn lemma_cache_write_once(
    v: ProDataView,
    pro: Pro,
    response: Result<Option<CurrentGameInfo>, RemoteError>,
    k: Seq<char>,
)
    ensures
        ({
            let after = fetch_game_step(v, pro, response).0;
            &&& after.games.len() >= v.games.len()
            &&& forall|i: int| 0 <= i < v.games.len() ==> after.games[i] == v.games[i]
            &&& v.cache.dom().contains(k) ==> after.cache.dom().contains(k) && after.cache[k]
                == v.cache[k]
        }),
{
    let after = fetch_game_step(v, pro, response).0;
    if after != v {
        let info = response->Ok_0->Some_0;
        let matched = matched_pros(v.pros, info.participants@);
        lemma_matched_pros_ids(v.pros, info.participants@);
        lemma_cache_with_game(v.cache, matched, v.games.len() as usize, k);
    }
}

/// The queue filter: a found match whose queue classification is not the
/// ranked-solo queue resolves to "no qualifying match" and leaves the state
/// untouched.
pub proof fn lemma_queue_filter(v: ProDataView, pro: Pro, info: CurrentGameInfo)
    requires
        pro.summoner_id is Some,
        !v.cache.dom().contains(pro.summoner_id->Some_0@),
        info.game_queue_config_id matches Some(q) && q != RANKED_SOLO_QUEUE_ID,
    ensures
        fetch_game_step(v, pro, Ok(Some(info))) == (v, Ok::<Option<usize>, FetchError>(None)),
{
}

/// The partition invariant: every stored match has ten players, five on
/// each side.
pub proof fn lemma_games_partition(v: ProDataView, i: int)
    requires
        v.inv(),
        0 <= i < v.games.len(),
    ensures
        v.games[i].players.len() == 10,
        pro_game::team_seq(v.games[i].players, Side::Blue).len() == 5,
        pro_game::team_seq(v.games[i].players, Side::Red).len() == 5,
{
}

} // verus!
