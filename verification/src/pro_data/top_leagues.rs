use vstd::prelude::*;

use crate::id_map::IdMap;
use crate::pro_data::RankedStats;

verus! {

/// The three top competitive tiers, highest first.
#[derive(Clone, Copy, PartialEq, Eq, Structural, Debug)]
pub enum Tier {
    Challenger,
    Grandmaster,
    Master,
}

/// One row of a ladder snapshot: an account and its current record.
///
/// The remote service reports the counters as 32-bit signed numbers, so a
/// well-formed entry never exceeds that range.
#[derive(Clone, Debug)]
pub struct LeagueEntry {
    pub summoner_id: String,
    pub league_points: u32,
    pub wins: u32,
    pub losses: u32,
}

/// The counters fit in 31 bits, as the remote service delivers them.
pub open spec fn entry_wf(e: LeagueEntry) -> bool {
    &&& e.league_points <= 0x7fff_ffff
    &&& e.wins <= 0x7fff_ffff
    &&& e.losses <= 0x7fff_ffff
}

/// The rank record built from a ladder entry of the given tier.
pub open spec fn stats_of(e: LeagueEntry, tier: Tier) -> RankedStats {
    RankedStats { tier: tier, league_points: e.league_points, wins: e.wins, losses: e.losses }
}

/// Overlay one ladder snapshot onto a rank mapping: every entry of the
/// snapshot is recorded under its account identifier, replacing whatever the
/// mapping held for it.
pub open spec fn overlay_league(
    m: Map<Seq<char>, RankedStats>,
    entries: Seq<LeagueEntry>,
    tier: Tier,
) -> Map<Seq<char>, RankedStats>
    decreases entries.len(),
{
    if entries.len() == 0 {
        m
    } else {
        overlay_league(m, entries.drop_last(), tier).insert(
            entries.last().summoner_id@,
            stats_of(entries.last(), tier),
        )
    }
}

/// The merge of the three ladder snapshots, higher tiers overlaid last so
/// that they win when an account appears in more than one.
pub open spec fn merged_leagues(
    master: Seq<LeagueEntry>,
    grandmaster: Seq<LeagueEntry>,
    challenger: Seq<LeagueEntry>,
) -> Map<Seq<char>, RankedStats> {
    overlay_league(
        overlay_league(overlay_league(Map::empty(), master, Tier::Master), grandmaster, Tier::Grandmaster),
        challenger,
        Tier::Challenger,
    )
}

/// Whether `id` appears in a ladder snapshot.
pub open spec fn in_league(entries: Seq<LeagueEntry>, id: Seq<char>) -> bool {
    exists|i: int| 0 <= i < entries.len() && entries[i].summoner_id@ == id
}

/// What an overlay holds for `id`: the snapshot's last entry for `id` if the
/// snapshot mentions it, and the underlying mapping's record otherwise.
pub proof fn lemma_overlay_lookup(
    m: Map<Seq<char>, RankedStats>,
    entries: Seq<LeagueEntry>,
    tier: Tier,
    id: Seq<char>,
)
    ensures
        overlay_league(m, entries, tier).dom().contains(id) <==> (m.dom().contains(id)
            || in_league(entries, id)),
        in_league(entries, id) ==> exists|i: int|
            0 <= i < entries.len() && entries[i].summoner_id@ == id && overlay_league(
                m,
                entries,
                tier,
            )[id] == stats_of(entries[i], tier),
        !in_league(entries, id) && m.dom().contains(id) ==> overlay_league(m, entries, tier)[id]
            == m[id],
    decreases entries.len(),
{
    if entries.len() > 0 {
        lemma_overlay_lookup(m, entries.drop_last(), tier, id);
        let prior = entries.drop_last();
        if entries.last().summoner_id@ == id {
            assert(entries[entries.len() - 1].summoner_id@ == id && overlay_league(
                m,
                entries,
                tier,
            )[id] == stats_of(entries[entries.len() - 1], tier));
        } else {
            if in_league(entries, id) {
                let i = choose|i: int| 0 <= i < entries.len() && entries[i].summoner_id@ == id;
                assert(prior[i].summoner_id@ == id);
                let j = choose|j: int|
                    0 <= j < prior.len() && prior[j].summoner_id@ == id && overlay_league(
                        m,
                        prior,
                        tier,
                    )[id] == stats_of(prior[j], tier);
                assert(entries[j].summoner_id@ == id && overlay_league(m, entries, tier)[id]
                    == stats_of(entries[j], tier));
            } else {
                assert(forall|i: int|
                    0 <= i < prior.len() ==> prior[i].summoner_id@ != id) by {
                    assert(forall|i: int|
                        0 <= i < prior.len() ==> prior[i] == entries[i]);
                }
            }
        }
    }
}

/// A snapshot of the top three ladders, indexed by account identifier.
pub struct TopLeagues {
    pub players: IdMap<RankedStats>,
}

impl TopLeagues {
    /// The index is well formed and every record in it is within range.
    pub open spec fn wf(self) -> bool {
        &&& self.players.wf()
        &&& forall|id: Seq<char>|
            self.players@.dom().contains(id) ==> (#[trigger] self.players@[id]).wf()
    }

    /// Merge the three fetched ladder snapshots into one rank index.
    ///
    /// If an account appears in more than one snapshot the higher tier wins.
    pub fn get(
        master: Vec<LeagueEntry>,
        grandmaster: Vec<LeagueEntry>,
        challenger: Vec<LeagueEntry>,
    ) -> (r: TopLeagues)
        requires
            forall|i: int| 0 <= i < master@.len() ==> entry_wf(#[trigger] master@[i]),
            forall|i: int| 0 <= i < grandmaster@.len() ==> entry_wf(#[trigger] grandmaster@[i]),
            forall|i: int| 0 <= i < challenger@.len() ==> entry_wf(#[trigger] challenger@[i]),
        ensures
            r.players@ == merged_leagues(master@, grandmaster@, challenger@),
            r.wf(),
    {
        let mut players: IdMap<RankedStats> = IdMap::new();
        overlay(&mut players, &master, Tier::Master);
        overlay(&mut players, &grandmaster, Tier::Grandmaster);
        overlay(&mut players, &challenger, Tier::Challenger);
        TopLeagues { players }
    }

    /// The rank record for an account, if one of the three snapshots has it.
    pub fn get_rank(&self, summoner_id: &String) -> (r: Option<RankedStats>)
        requires
            self.players.wf(),
        ensures
            r == if self.players@.dom().contains(summoner_id@) {
                Some(self.players@[summoner_id@])
            } else {
                None::<RankedStats>
            },
    {
        match self.players.get(summoner_id) {
            Some(stats) => Some(*stats),
            None => None,
        }
    }

    /// The league points for an account, if it is ranked in a top tier.
    pub fn get_lp(&self, summoner_id: &String) -> (r: Option<u32>)
        requires
            self.players.wf(),
        ensures
            r == if self.players@.dom().contains(summoner_id@) {
                Some(self.players@[summoner_id@].league_points)
            } else {
                None::<u32>
            },
    {
        match self.get_rank(summoner_id) {
            Some(stats) => Some(stats.league_points),
            None => None,
        }
    }
}

/// Record every entry of one snapshot, replacing lower-tier records.
fn overlay(players: &mut IdMap<RankedStats>, entries: &Vec<LeagueEntry>, tier: Tier)
    requires
        old(players).wf(),
        forall|i: int| 0 <= i < entries@.len() ==> entry_wf(#[trigger] entries@[i]),
        forall|id: Seq<char>|
            old(players)@.dom().contains(id) ==> (#[trigger] old(players)@[id]).wf(),
    ensures
        final(players).wf(),
        final(players)@ == overlay_league(old(players)@, entries@, tier),
        forall|id: Seq<char>|
            final(players)@.dom().contains(id) ==> (#[trigger] final(players)@[id]).wf(),
{
    let n = entries.len();
    let mut i: usize = 0;
    while i < n
        invariant
            i <= n,
            n == entries@.len(),
            players.wf(),
            forall|j: int| 0 <= j < entries@.len() ==> entry_wf(#[trigger] entries@[j]),
            players@ == overlay_league(old(players)@, entries@.subrange(0, i as int), tier),
            forall|id: Seq<char>|
                players@.dom().contains(id) ==> (#[trigger] players@[id]).wf(),
        decreases n - i,
    {
        let entry = &entries[i];
        let stats = RankedStats {
            tier: tier,
            league_points: entry.league_points,
            wins: entry.wins,
            losses: entry.losses,
        };
        players.insert(entry.summoner_id.clone(), stats);
        proof {
            let prefix = entries@.subrange(0, i as int);
            let extended = entries@.subrange(0, i + 1);
            assert(extended.drop_last() =~= prefix);
            assert(extended.last() == entries@[i as int]);
            assert(stats == stats_of(entries@[i as int], tier));
            assert(players@ == overlay_league(old(players)@, extended, tier));
        }
        i = i + 1;
    }
    proof {
        assert(entries@.subrange(0, n as int) =~= entries@);
    }
}

/// Rank correctness: the merged index has a record for an account exactly
/// when one of the three fetched ladder snapshots lists it, and on a
/// collision the higher tier wins.
pub proof fn lemma_rank_correctness(
    master: Seq<LeagueEntry>,
    grandmaster: Seq<LeagueEntry>,
    challenger: Seq<LeagueEntry>,
    id: Seq<char>,
)
    ensures
        merged_leagues(master, grandmaster, challenger).dom().contains(id) <==> (in_league(
            master,
            id,
        ) || in_league(grandmaster, id) || in_league(challenger, id)),
        in_league(challenger, id) ==> merged_leagues(master, grandmaster, challenger)[id].tier
            == Tier::Challenger,
        !in_league(challenger, id) && in_league(grandmaster, id) ==> merged_leagues(
            master,
            grandmaster,
            challenger,
        )[id].tier == Tier::Grandmaster,
        !in_league(challenger, id) && !in_league(grandmaster, id) && in_league(master, id)
            ==> merged_leagues(master, grandmaster, challenger)[id].tier == Tier::Master,
{
    let m1 = overlay_league(Map::empty(), master, Tier::Master);
    let m2 = overlay_league(m1, grandmaster, Tier::Grandmaster);
    lemma_overlay_lookup(Map::empty(), master, Tier::Master, id);
    lemma_overlay_lookup(m1, grandmaster, Tier::Grandmaster, id);
    lemma_overlay_lookup(m2, challenger, Tier::Challenger, id);
}

} // verus!
