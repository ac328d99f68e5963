use lol_horses::model::{
    Game, GameMatch, GameMatchList, GameQueryType, Participant, ParticipantIdentity,
    ParticipantPlayer, ParticipantStats, ScoreAverage,
};

fn stats(kills: usize, win: bool) -> ParticipantStats {
    ParticipantStats {
        assists: 0,
        caused_early_surrender: false,
        deaths: 0,
        kills,
        double_kills: 0,
        triple_kills: 0,
        quadra_kills: 0,
        penta_kills: 0,
        killing_sprees: 0,
        total_damage_dealt_to_champions: 0,
        first_blood_assist: false,
        first_blood_kill: false,
        win,
    }
}

fn game(queue_id: usize, mode: &str, kind: &str, name: &str, s: ParticipantStats) -> Game {
    Game {
        game_id: queue_id,
        game_mode: mode.to_string(),
        game_type: kind.to_string(),
        game_version: "13.1".to_string(),
        map_id: 11,
        queue_id,
        participant_identities: vec![ParticipantIdentity {
            participant_id: 1,
            player: ParticipantPlayer {
                account_id: 7,
                summoner_id: 8,
                summoner_name: name.to_string(),
            },
        }],
        participants: vec![Participant {
            champion_id: 1,
            highest_achieved_season_tier: "GOLD".to_string(),
            participant_id: 1,
            stats: s,
        }],
    }
}

fn history(games: Vec<Game>) -> GameMatchList {
    GameMatchList {
        account_id: 7,
        platform_id: "HN1".to_string(),
        games: GameMatch {
            game_begin_date: String::new(),
            game_count: games.len(),
            game_end_date: String::new(),
            game_index_begin: 0,
            game_index_end: games.len(),
            games,
        },
    }
}

#[test]
fn query_types_select_their_queue() {
    assert_eq!(GameQueryType::Rank.get_queue_id(), 420);
    assert_eq!(GameQueryType::Rank.get_game_mode(), "CLASSIC");
    assert_eq!(GameQueryType::Rank.get_game_type(), "MATCHED_GAME");
    assert_eq!(GameQueryType::PolarChaos.get_queue_id(), 450);
    assert_eq!(GameQueryType::PolarChaos.get_game_mode(), "ARAM");
    assert_eq!(GameQueryType::PolarChaos.get_game_type(), "MATCHED_GAME");
}

#[test]
fn empty_history_averages_ninety_five() {
    let h = history(vec![]);
    let r = h.get_recently_rank_average_score(&GameQueryType::Rank);
    assert_eq!(r, ScoreAverage { total: 95, count: 1 });
}

#[test]
fn history_without_matching_games_averages_ninety_five() {
    let h = history(vec![game(400, "CLASSIC", "MATCHED_GAME", "a", stats(9, true))]);
    let r = h.get_recently_rank_average_score(&GameQueryType::Rank);
    assert_eq!(r, ScoreAverage { total: 95, count: 1 });
}

#[test]
fn single_match_average_is_its_score() {
    let h = history(vec![game(420, "CLASSIC", "MATCHED_GAME", "a", stats(3, true))]);
    let r = h.get_recently_rank_average_score(&GameQueryType::Rank);
    assert_eq!(r, ScoreAverage { total: 111, count: 1 });
}

#[test]
fn each_query_type_averages_its_own_matches() {
    let h = history(vec![
        game(420, "CLASSIC", "MATCHED_GAME", "a", stats(10, true)),
        game(450, "ARAM", "MATCHED_GAME", "a", stats(1, false)),
        game(400, "CLASSIC", "MATCHED_GAME", "a", stats(50, true)),
    ]);
    let rank = h.get_recently_rank_average_score(&GameQueryType::Rank);
    assert_eq!(rank, ScoreAverage { total: 125, count: 1 });
    let chaos = h.get_recently_rank_average_score(&GameQueryType::PolarChaos);
    assert_eq!(chaos, ScoreAverage { total: 97, count: 1 });
}

#[test]
fn average_sums_the_matching_scores() {
    let h = history(vec![
        game(420, "CLASSIC", "MATCHED_GAME", "a", stats(10, true)),
        game(420, "ARAM", "MATCHED_GAME", "a", stats(40, true)),
        game(420, "CLASSIC", "CUSTOM_GAME", "a", stats(40, true)),
        game(420, "CLASSIC", "MATCHED_GAME", "a", stats(0, false)),
    ]);
    let r = h.get_recently_rank_average_score(&GameQueryType::Rank);
    assert_eq!(r, ScoreAverage { total: 125 + 95, count: 2 });
}

#[test]
fn match_without_participants_is_skipped() {
    let mut g = game(420, "CLASSIC", "MATCHED_GAME", "a", stats(10, true));
    g.participants.clear();
    let h = history(vec![g, game(420, "CLASSIC", "MATCHED_GAME", "a", stats(1, true))]);
    let r = h.get_recently_rank_average_score(&GameQueryType::Rank);
    assert_eq!(r, ScoreAverage { total: 107, count: 1 });
}

#[test]
fn summoner_name_comes_from_first_named_game() {
    let mut first = game(420, "CLASSIC", "MATCHED_GAME", "ghost", stats(1, true));
    first.participant_identities.clear();
    let h = history(vec![first, game(450, "ARAM", "MATCHED_GAME", "Faker", stats(1, true))]);
    assert_eq!(h.get_summoner_name(), Some("Faker"));
}

#[test]
fn summoner_name_missing_without_identities() {
    assert_eq!(history(vec![]).get_summoner_name(), None);
    let mut g = game(420, "CLASSIC", "MATCHED_GAME", "ghost", stats(1, true));
    g.participant_identities.clear();
    assert_eq!(history(vec![g]).get_summoner_name(), None);
}
