use protrack::pro_data::pro_game::{
    ansicode_length, banned_champions_to_string, game_length_to_string, participant_to_string,
    start_time_to_string, BannedChampion, CurrentGameInfo, CurrentGameParticipant, Player, ProGame,
    Side,
};
use protrack::pro_data::top_leagues::{LeagueEntry, Tier};
use protrack::pro_data::{ProData, RankedStats};
use protrack::text::{dec_string, two_digit_string};

fn participant(side: Side, champion: &str, id: &str, name: &str) -> CurrentGameParticipant {
    CurrentGameParticipant {
        team_id: side,
        champion_id: 0,
        champion_name: champion.to_string(),
        summoner_id: id.to_string(),
        summoner_name: name.to_string(),
    }
}

fn stats(tier: Tier, lp: u32, wins: u32, losses: u32) -> RankedStats {
    RankedStats { tier, league_points: lp, wins, losses }
}

/// A game with ten players; the first two (blue side) carry rank records.
fn sample_game() -> ProGame {
    let mut players = Vec::new();
    players.push(Player::new(
        participant(Side::Blue, "Ahri", "111", "alpha"),
        Some(stats(Tier::Challenger, 900, 30, 20)),
    ));
    players.push(Player::new(
        participant(Side::Blue, "Jinx", "222", "beta"),
        Some(stats(Tier::Master, 100, 10, 10)),
    ));
    for i in 2..5 {
        players.push(Player::new(
            participant(Side::Blue, "Lux", &format!("b{}", i), &format!("blue{}", i)),
            None,
        ));
    }
    for i in 0..5 {
        players.push(Player::new(
            participant(Side::Red, "Zed", &format!("r{}", i), &format!("red{}", i)),
            None,
        ));
    }
    ProGame {
        game_queue_config_id: Some(420),
        game_start_time: 1_700_000_000_000,
        game_length: 754,
        players,
        pro_players: Vec::new(),
        banned_champions: Vec::new(),
    }
}

#[test]
fn teams_partition_five_and_five() {
    let game = sample_game();
    let (blue, red) = game.teams();
    assert_eq!(blue.len(), 5);
    assert_eq!(red.len(), 5);
    for p in &blue {
        assert_eq!(p.current_game_participant.team_id, Side::Blue);
    }
    for p in &red {
        assert_eq!(p.current_game_participant.team_id, Side::Red);
    }
    assert_eq!(blue[0].current_game_participant.summoner_id, "111");
    assert_eq!(red[0].current_game_participant.summoner_id, "r0");
}

#[test]
fn resolved_game_partitions_five_and_five() {
    let csv = "pro_name,short_team,long_team,summoner_name,summoner_id\n\
Alpha,t1,Team One,alpha,111\n";
    let mut data = ProData::load(csv.as_bytes(), Vec::new(), Vec::new(), Vec::new());
    let alpha = data.get_pros().remove(0);
    let game = sample_game();
    let info = CurrentGameInfo {
        game_queue_config_id: Some(420),
        game_start_time: 1,
        game_length: 2,
        participants: game
            .players
            .iter()
            .map(|p| p.current_game_participant.clone())
            .collect(),
        banned_champions: Vec::new(),
    };
    let index = data.fetch_game(&alpha, Ok(Some(info))).unwrap().unwrap();
    let (blue, red) = data.game_at(index).teams();
    assert_eq!(blue.len(), 5);
    assert_eq!(red.len(), 5);
}

#[test]
fn average_lp_uses_only_ranked_players() {
    let game = sample_game();
    // Two of ten players carry rank records, 900 and 100 points.
    assert_eq!(game.average_lp(), Some(500));
}

#[test]
fn average_lp_of_unranked_game_is_none() {
    let mut game = sample_game();
    for player in &mut game.players {
        player.rank = None;
    }
    assert_eq!(game.average_lp(), None);
}

#[test]
fn player_lookup_by_identifier() {
    let game = sample_game();
    let found = game.get_player(&"222".to_string()).unwrap();
    assert_eq!(found.current_game_participant.summoner_name, "beta");
    assert!(game.get_player(&"nope".to_string()).is_none());

    assert_eq!(game.get_lp(&"111".to_string()), Some(900));
    assert_eq!(game.get_lp(&"b2".to_string()), None);
    assert_eq!(game.get_lp(&"nope".to_string()), None);
}

#[test]
fn player_rank_accessor_returns_attached_record() {
    let player = Player::new(
        participant(Side::Blue, "Ahri", "111", "alpha"),
        Some(stats(Tier::Grandmaster, 700, 12, 8)),
    );
    let rank = player.rank().as_ref().unwrap();
    assert_eq!(rank.tier, Tier::Grandmaster);
    assert_eq!(rank.league_points, 700);
    assert_eq!(rank.games_played(), 20);
}

#[test]
fn pro_lookup_searches_matched_pros() {
    let csv = "pro_name,short_team,long_team,summoner_name,summoner_id\n\
Alpha,t1,Team One,alpha,111\n";
    let mut data = ProData::load(csv.as_bytes(), Vec::new(), Vec::new(), Vec::new());
    let alpha = data.get_pros().remove(0);
    let game = sample_game();
    let info = CurrentGameInfo {
        game_queue_config_id: Some(420),
        game_start_time: 1,
        game_length: 2,
        participants: game
            .players
            .iter()
            .map(|p| p.current_game_participant.clone())
            .collect(),
        banned_champions: Vec::new(),
    };
    let index = data.fetch_game(&alpha, Ok(Some(info))).unwrap().unwrap();
    let stored = data.game_at(index);
    let found = stored.get_pro(&"111".to_string()).unwrap();
    assert_eq!(found.player_name, "Alpha");
    assert!(stored.get_pro(&"r0".to_string()).is_none());
}

#[test]
fn game_length_reads_like_a_clock() {
    assert_eq!(game_length_to_string(754), "12:34");
    assert_eq!(game_length_to_string(59), "00:59");
    assert_eq!(game_length_to_string(7200), "120:00");
    assert_eq!(game_length_to_string(0), "00:00");
}

#[test]
fn start_time_is_a_local_time_of_day() {
    let s = start_time_to_string(1_700_000_000_000);
    let chars: Vec<char> = s.chars().collect();
    assert_eq!(chars.len(), 8);
    assert_eq!(chars[2], ':');
    assert_eq!(chars[5], ':');
    for i in [0, 1, 3, 4, 6, 7] {
        assert!(chars[i].is_ascii_digit());
    }
}

#[test]
fn ansi_codes_are_measured() {
    assert_eq!(ansicode_length("\u{1b}[32mfoo\u{1b}[m bar"), 8);
    assert_eq!(ansicode_length("plain"), 0);
}

#[test]
fn participant_labels() {
    let p = participant(Side::Blue, "Ahri", "111", "alpha");
    assert_eq!(participant_to_string(&p, (false, "")), "Ahri [alpha]");
    assert_eq!(participant_to_string(&p, (true, "T1 Alpha")), "<T1 Alpha> Ahri [alpha]");
}

#[test]
fn banned_champions_join_per_side() {
    let bans = vec![
        BannedChampion { team_id: Side::Blue, champion_name: Some("Ahri".to_string()) },
        BannedChampion { team_id: Side::Red, champion_name: Some("Zed".to_string()) },
        BannedChampion { team_id: Side::Blue, champion_name: None },
        BannedChampion { team_id: Side::Red, champion_name: Some("Lux".to_string()) },
    ];
    let (blue, red) = banned_champions_to_string(&bans);
    assert_eq!(blue, "Ahri, None");
    assert_eq!(red, "Zed, Lux");
}

#[test]
fn rank_records_display_with_one_decimal() {
    let st = stats(Tier::Challenger, 875, 250, 150);
    assert_eq!(st.display_string(), "C1 875LP 400gp 62.5%");
    let gm = stats(Tier::Grandmaster, 44, 2, 1);
    assert_eq!(gm.display_string(), "GM 44LP 3gp 66.7%");
    let m = stats(Tier::Master, 0, 1, 2);
    assert_eq!(m.display_string(), "M 0LP 3gp 33.3%");
}

#[test]
fn pro_display_label() {
    let csv = "pro_name,short_team,long_team,summoner_name,summoner_id\n\
Alpha,t1,Team One,alpha,111\n";
    let data = ProData::load(csv.as_bytes(), Vec::new(), Vec::new(), Vec::new());
    assert_eq!(data.get_pros()[0].display_string(), "T1 Alpha");
}

#[test]
fn decimal_strings() {
    assert_eq!(dec_string(0), "0");
    assert_eq!(dec_string(7), "7");
    assert_eq!(dec_string(10), "10");
    assert_eq!(dec_string(90734), "90734");
    assert_eq!(two_digit_string(7), "07");
    assert_eq!(two_digit_string(42), "42");
    assert_eq!(two_digit_string(120), "120");
}

#[test]
fn tier_short_codes() {
    assert_eq!(Tier::Challenger.short_code(), "C1");
    assert_eq!(Tier::Grandmaster.short_code(), "GM");
    assert_eq!(Tier::Master.short_code(), "M");
}

#[test]
fn league_entries_become_rank_records() {
    let entry = LeagueEntry { summoner_id: "x".to_string(), league_points: 5, wins: 1, losses: 2 };
    assert_eq!(entry.league_points, 5);
    assert_eq!(entry.wins + entry.losses, 3);
}
