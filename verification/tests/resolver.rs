use protrack::pro_data::pro_game::{CurrentGameInfo, CurrentGameParticipant, Side};
use protrack::pro_data::{FetchError, Pro, ProData, RemoteError, Team};

fn pro(player: &str, team_short: &str, team_full: &str, account: &str, id: &str) -> Pro {
    Pro::new(
        player.to_string(),
        Team::new(team_short.to_string(), team_full.to_string()),
        account.to_string(),
        id.to_string(),
    )
}

fn participant(side: Side, champion: &str, id: &str, name: &str) -> CurrentGameParticipant {
    CurrentGameParticipant {
        team_id: side,
        champion_id: 0,
        champion_name: champion.to_string(),
        summoner_id: id.to_string(),
        summoner_name: name.to_string(),
    }
}

/// Ten participants, five per side; the first two blue slots carry the given
/// identifiers.
fn ten_participants(first_id: &str, second_id: &str) -> Vec<CurrentGameParticipant> {
    let mut parts = Vec::new();
    parts.push(participant(Side::Blue, "Ahri", first_id, "alpha"));
    parts.push(participant(Side::Blue, "Jinx", second_id, "beta"));
    for i in 2..5 {
        parts.push(participant(Side::Blue, "Lux", &format!("b{}", i), &format!("blue{}", i)));
    }
    for i in 0..5 {
        parts.push(participant(Side::Red, "Zed", &format!("r{}", i), &format!("red{}", i)));
    }
    parts
}

fn snapshot(queue: Option<u64>, parts: Vec<CurrentGameParticipant>) -> CurrentGameInfo {
    CurrentGameInfo {
        game_queue_config_id: queue,
        game_start_time: 1_700_000_000_000,
        game_length: 754,
        participants: parts,
        banned_champions: Vec::new(),
    }
}

const ROSTER_CSV: &str = "pro_name,short_team,long_team,summoner_name,summoner_id\n\
Alpha,t1,Team One,alpha,111\n\
Beta,dk,Team Two,beta,222\n";

fn loaded() -> ProData {
    ProData::load(ROSTER_CSV.as_bytes(), Vec::new(), Vec::new(), Vec::new())
}

#[test]
fn shared_match_resolves_both_pros() {
    let mut data = loaded();
    let alpha = pro("Alpha", "t1", "Team One", "alpha", "111");
    let beta = pro("Beta", "dk", "Team Two", "beta", "222");

    assert!(!data.is_in_game(&alpha));
    assert!(!data.is_in_game(&beta));

    let info = snapshot(Some(420), ten_participants("111", "222"));
    let index = data
        .fetch_game(&alpha, Ok(Some(info)))
        .expect("remote answered")
        .expect("a qualifying match");
    assert_eq!(index, 0);

    let game = data.game_at(index);
    let matched: Vec<String> = game.pro_players.iter().map(|p| p.player_name.clone()).collect();
    assert_eq!(matched, vec!["Alpha".to_string(), "Beta".to_string()]);

    assert!(data.is_in_game(&alpha));
    assert!(data.is_in_game(&beta));
    assert_eq!(data.games_count(), 1);
    assert_eq!(data.pros_in_game_count(), 2);

    // The second pro is answered from the cache: the response is not
    // consulted, so a failing one changes nothing.
    let again = data.fetch_game(&beta, Err(RemoteError::Transient));
    assert_eq!(again, Ok(Some(0)));
    assert_eq!(data.games_count(), 1);
}

#[test]
fn fetch_game_is_idempotent() {
    let mut data = loaded();
    let alpha = pro("Alpha", "t1", "Team One", "alpha", "111");

    let info = snapshot(Some(420), ten_participants("111", "999"));
    let first = data.fetch_game(&alpha, Ok(Some(info)));
    assert_eq!(first, Ok(Some(0)));

    let second = data.fetch_game(&alpha, Err(RemoteError::Authorization));
    assert_eq!(second, Ok(Some(0)));
    assert_eq!(data.games_count(), 1);
}

#[test]
fn offline_pro_leaves_store_unchanged() {
    let mut data = loaded();
    let alpha = pro("Alpha", "t1", "Team One", "alpha", "111");

    let result = data.fetch_game(&alpha, Ok(None));
    assert_eq!(result, Ok(None));
    assert_eq!(data.games_count(), 0);
    assert!(!data.is_in_game(&alpha));
}

#[test]
fn non_ranked_queue_is_filtered() {
    let mut data = loaded();
    let alpha = pro("Alpha", "t1", "Team One", "alpha", "111");

    let info = snapshot(Some(430), ten_participants("111", "222"));
    let result = data.fetch_game(&alpha, Ok(Some(info)));
    assert_eq!(result, Ok(None));
    assert_eq!(data.games_count(), 0);
    assert!(!data.is_in_game(&alpha));
}

#[test]
fn unreported_queue_is_tracked() {
    let mut data = loaded();
    let alpha = pro("Alpha", "t1", "Team One", "alpha", "111");

    let info = snapshot(None, ten_participants("111", "222"));
    let result = data.fetch_game(&alpha, Ok(Some(info)));
    assert_eq!(result, Ok(Some(0)));
    assert_eq!(data.games_count(), 1);
}

#[test]
fn missing_summoner_id_is_reported() {
    let mut data = loaded();
    let unresolved = pro("Gamma", "fx", "Team Three", "gamma", "");

    let result = data.fetch_game(&unresolved, Ok(None));
    assert_eq!(result, Err(FetchError::MissingSummonerId));
}

#[test]
fn remote_failure_propagates() {
    let mut data = loaded();
    let alpha = pro("Alpha", "t1", "Team One", "alpha", "111");

    let result = data.fetch_game(&alpha, Err(RemoteError::Authorization));
    assert_eq!(result, Err(FetchError::Remote(RemoteError::Authorization)));
    assert_eq!(data.games_count(), 0);
}

#[test]
fn lopsided_sides_are_an_invariant_violation() {
    let mut data = loaded();
    let alpha = pro("Alpha", "t1", "Team One", "alpha", "111");

    let mut parts = ten_participants("111", "222");
    parts[9].team_id = Side::Blue;
    let info = snapshot(Some(420), parts);
    let result = data.fetch_game(&alpha, Ok(Some(info)));
    assert_eq!(result, Err(FetchError::InvariantViolation));
    assert_eq!(data.games_count(), 0);
}

#[test]
fn roster_loading_skips_malformed_rows() {
    let csv = "pro_name,short_team,long_team,summoner_name,summoner_id\n\
Alpha,t1,Team One,alpha,111\n\
broken,row\n\
Beta,dk,Team Two,beta,222\n";
    let data = ProData::load(csv.as_bytes(), Vec::new(), Vec::new(), Vec::new());
    assert_eq!(data.pros_count(), 2);

    let names: Vec<String> = data.get_pros().iter().map(|p| p.player_name.clone()).collect();
    assert_eq!(names, vec!["Alpha".to_string(), "Beta".to_string()]);
}

#[test]
fn roster_loading_keeps_last_row_per_identifier() {
    let csv = "pro_name,short_team,long_team,summoner_name,summoner_id\n\
Alpha,t1,Team One,alpha,111\n\
Alpha2,t1,Team One,alpha2,111\n";
    let data = ProData::load(csv.as_bytes(), Vec::new(), Vec::new(), Vec::new());
    assert_eq!(data.pros_count(), 1);
    assert_eq!(data.get_pros()[0].player_name, "Alpha2");
}

#[test]
fn team_short_code_is_uppercased() {
    let team = Team::new("t1".to_string(), "Team One".to_string());
    assert_eq!(team.short_name, "T1");
    assert_eq!(team.full_name, "Team One");

    let data = loaded();
    let pros = data.get_pros();
    assert_eq!(pros[0].team.short_name, "T1");
    assert_eq!(pros[1].team.short_name, "DK");
}

#[test]
fn unresolved_roster_rows_have_no_identifier() {
    let gamma = pro("Gamma", "fx", "Team Three", "gamma", "");
    assert_eq!(gamma.summoner_id, None);
    let alpha = pro("Alpha", "t1", "Team One", "alpha", "111");
    assert_eq!(alpha.summoner_id, Some("111".to_string()));
}
