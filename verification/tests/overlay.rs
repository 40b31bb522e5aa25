use protrack::pro_data::top_leagues::{LeagueEntry, Tier, TopLeagues};
use protrack::pro_data::ProData;

fn entry(id: &str, lp: u32, wins: u32, losses: u32) -> LeagueEntry {
    LeagueEntry { summoner_id: id.to_string(), league_points: lp, wins, losses }
}

#[test]
fn rank_is_present_exactly_for_listed_accounts() {
    let leagues = TopLeagues::get(
        vec![entry("m1", 10, 100, 90), entry("both", 20, 50, 50)],
        vec![entry("g1", 400, 200, 150)],
        vec![entry("c1", 900, 300, 200)],
    );

    assert!(leagues.get_rank(&"m1".to_string()).is_some());
    assert!(leagues.get_rank(&"g1".to_string()).is_some());
    assert!(leagues.get_rank(&"c1".to_string()).is_some());
    assert!(leagues.get_rank(&"both".to_string()).is_some());
    assert!(leagues.get_rank(&"absent".to_string()).is_none());
    assert!(leagues.get_lp(&"absent".to_string()).is_none());
}

#[test]
fn higher_tier_wins_on_collision() {
    let leagues = TopLeagues::get(
        vec![entry("shared", 11, 1, 1), entry("m1", 10, 2, 2)],
        vec![entry("shared", 22, 3, 3)],
        vec![entry("c1", 900, 4, 4)],
    );

    let shared = leagues.get_rank(&"shared".to_string()).unwrap();
    assert_eq!(shared.tier, Tier::Grandmaster);
    assert_eq!(shared.league_points, 22);

    let m1 = leagues.get_rank(&"m1".to_string()).unwrap();
    assert_eq!(m1.tier, Tier::Master);

    let c1 = leagues.get_rank(&"c1".to_string()).unwrap();
    assert_eq!(c1.tier, Tier::Challenger);
    assert_eq!(leagues.get_lp(&"c1".to_string()), Some(900));
}

#[test]
fn challenger_wins_over_both_lower_tiers() {
    let leagues = TopLeagues::get(
        vec![entry("shared", 11, 1, 1)],
        vec![entry("shared", 22, 3, 3)],
        vec![entry("shared", 33, 5, 5)],
    );

    let shared = leagues.get_rank(&"shared".to_string()).unwrap();
    assert_eq!(shared.tier, Tier::Challenger);
    assert_eq!(shared.league_points, 33);
    assert_eq!(shared.wins, 5);
    assert_eq!(shared.losses, 5);
}

const ROSTER_CSV: &str = "pro_name,short_team,long_team,summoner_name,summoner_id\n\
Alpha,t1,Team One,alpha,111\n\
Beta,dk,Team Two,beta,222\n\
Gamma,fx,Team Three,gamma,333\n";

#[test]
fn resolver_exposes_rank_lookups() {
    let data = ProData::load(
        ROSTER_CSV.as_bytes(),
        vec![entry("111", 15, 10, 10)],
        Vec::new(),
        vec![entry("333", 950, 30, 20)],
    );

    assert_eq!(data.get_lp(&"111".to_string()), Some(15));
    assert_eq!(data.get_lp(&"222".to_string()), None);
    let gamma = data.ranked_stats(&"333".to_string()).unwrap();
    assert_eq!(gamma.tier, Tier::Challenger);
    assert_eq!(gamma.league_points, 950);
    assert!(data.ranked_stats(&"222".to_string()).is_none());
}

#[test]
fn leaderboard_sorts_by_league_points_descending() {
    let data = ProData::load(
        ROSTER_CSV.as_bytes(),
        vec![entry("111", 15, 10, 10), entry("222", 400, 20, 10)],
        Vec::new(),
        vec![entry("333", 950, 30, 20)],
    );

    let board = data.pro_leaderboard();
    let names: Vec<String> = board.iter().map(|(p, _)| p.player_name.clone()).collect();
    assert_eq!(
        names,
        vec!["Gamma".to_string(), "Beta".to_string(), "Alpha".to_string()]
    );
    let points: Vec<u32> = board.iter().map(|(_, r)| r.league_points).collect();
    assert_eq!(points, vec![950, 400, 15]);
}

#[test]
fn leaderboard_skips_unranked_pros() {
    let data = ProData::load(
        ROSTER_CSV.as_bytes(),
        vec![entry("222", 400, 20, 10)],
        Vec::new(),
        Vec::new(),
    );

    let board = data.pro_leaderboard();
    assert_eq!(board.len(), 1);
    assert_eq!(board[0].0.player_name, "Beta");
}
