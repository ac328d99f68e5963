use lol_horses::model::{
    Game, GameMatch, GameMatchList, GameQueryType, ParticipantIdentity, ParticipantPlayer,
    ScoreAverage,
};
use lol_horses::rank::{player_score, rank_players, PlayerScore};

fn entry(name: &str, total: i128, count: usize) -> PlayerScore {
    PlayerScore { name: name.to_string(), score: ScoreAverage { total, count } }
}

fn names(entries: &[PlayerScore]) -> Vec<(String, String)> {
    rank_players(&entries.iter().map(|e| PlayerScore { name: e.name.clone(), score: e.score }).collect())
        .into_iter()
        .map(|r| (r.label.to_string(), r.name))
        .collect()
}

#[test]
fn no_players_no_labels() {
    assert!(rank_players(&vec![]).is_empty());
}

#[test]
fn best_of_few_gets_top_label() {
    let got = names(&[entry("a", 100, 1), entry("b", 130, 1), entry("c", 90, 1)]);
    assert_eq!(
        got,
        vec![
            ("上等马".to_string(), "b".to_string()),
            ("中等马".to_string(), "a".to_string()),
            ("下等马".to_string(), "c".to_string()),
        ]
    );
}

#[test]
fn lowest_players_beyond_five_get_no_label() {
    let got = names(&[
        entry("p1", 10, 1),
        entry("p2", 70, 1),
        entry("p3", 30, 1),
        entry("p4", 60, 1),
        entry("p5", 20, 1),
        entry("p6", 50, 1),
        entry("p7", 40, 1),
    ]);
    assert_eq!(
        got,
        vec![
            ("上等马".to_string(), "p2".to_string()),
            ("中等马".to_string(), "p4".to_string()),
            ("下等马".to_string(), "p6".to_string()),
            ("大司马".to_string(), "p7".to_string()),
            ("牛马".to_string(), "p3".to_string()),
        ]
    );
}

#[test]
fn equal_scores_keep_later_player_higher() {
    // 200/2 and 100/1 are the same average
    let got = names(&[entry("first", 200, 2), entry("second", 100, 1), entry("low", 99, 1)]);
    assert_eq!(got[0].1, "second");
    assert_eq!(got[1].1, "first");
    assert_eq!(got[2].1, "low");
}

#[test]
fn fractions_compare_exactly() {
    // 301/3 is above 100, 199/2 below it
    let got = names(&[entry("x", 301, 3), entry("y", 100, 1), entry("z", 199, 2)]);
    assert_eq!(got[0].1, "x");
    assert_eq!(got[1].1, "y");
    assert_eq!(got[2].1, "z");
}

#[test]
fn ranked_entries_keep_input_index_and_score() {
    let r = rank_players(&vec![entry("a", 5, 1), entry("b", 6, 1)]);
    assert_eq!(r[0].index, 1);
    assert_eq!(r[0].score, ScoreAverage { total: 6, count: 1 });
    assert_eq!(r[1].index, 0);
}

#[test]
fn player_score_needs_a_name() {
    let empty = GameMatchList {
        account_id: 1,
        platform_id: "HN1".to_string(),
        games: GameMatch {
            game_begin_date: String::new(),
            game_count: 0,
            game_end_date: String::new(),
            game_index_begin: 0,
            game_index_end: 0,
            games: vec![],
        },
    };
    assert!(player_score(&empty, &GameQueryType::Rank).is_none());
    let named = GameMatchList {
        games: GameMatch {
            games: vec![Game {
                game_id: 1,
                game_mode: "ARAM".to_string(),
                game_type: "MATCHED_GAME".to_string(),
                game_version: String::new(),
                map_id: 12,
                queue_id: 450,
                participant_identities: vec![ParticipantIdentity {
                    participant_id: 1,
                    player: ParticipantPlayer {
                        account_id: 1,
                        summoner_id: 2,
                        summoner_name: "Uzi".to_string(),
                    },
                }],
                participants: vec![],
            }],
            ..empty.games
        },
        ..empty
    };
    let s = player_score(&named, &GameQueryType::PolarChaos).unwrap();
    assert_eq!(s.name, "Uzi");
    assert_eq!(s.score, ScoreAverage { total: 95, count: 1 });
}
