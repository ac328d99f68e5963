use vstd::prelude::*;

verus! {

/// A player's recent match history.
pub struct GameMatchList {
    pub account_id: usize,
    pub platform_id: String,
    pub games: GameMatch,
}

/// The page of matches inside a match history.
pub struct GameMatch {
    pub game_begin_date: String,
    pub game_count: usize,
    pub game_end_date: String,
    pub game_index_begin: usize,
    pub game_index_end: usize,
    pub games: Vec<Game>,
}

/// One match.
pub struct Game {
    pub game_id: usize,
    pub game_mode: String,
    pub game_type: String,
    pub game_version: String,
    pub map_id: usize,
    pub queue_id: usize,
    pub participant_identities: Vec<ParticipantIdentity>,
    pub participants: Vec<Participant>,
}

/// Which kind of match a report looks at.
#[derive(Clone, Copy, Debug, PartialEq, Eq, Structural)]
pub enum GameQueryType {
    Rank,
    PolarChaos,
}

/// The queue id that selects matches of a query type.
pub open spec fn queue_id_of(q: GameQueryType) -> nat {
    match q {
        GameQueryType::Rank => 420,
        GameQueryType::PolarChaos => 450,
    }
}

/// The game mode that selects matches of a query type.
pub open spec fn game_mode_of(q: GameQueryType) -> Seq<char> {
    match q {
        GameQueryType::Rank => "CLASSIC"@,
        GameQueryType::PolarChaos => "ARAM"@,
    }
}

/// The game type that selects matches of a query type.
pub open spec fn game_type_of(q: GameQueryType) -> Seq<char> {
    "MATCHED_GAME"@
}

impl GameQueryType {
    pub fn get_queue_id(&self) -> (r: usize)
        ensures
            r == queue_id_of(*self),
    {
        match self {
            GameQueryType::Rank => 420,
            GameQueryType::PolarChaos => 450,
        }
    }

    pub fn get_game_mode(&self) -> (r: &'static str)
        ensures
            r@ == game_mode_of(*self),
    {
        proof {
            reveal_strlit("CLASSIC");
            reveal_strlit("ARAM");
        }
        match self {
            GameQueryType::Rank => "CLASSIC",
            GameQueryType::PolarChaos => "ARAM",
        }
    }

    pub fn get_game_type(&self) -> (r: &'static str)
        ensures
            r@ == game_type_of(*self),
    {
        proof {
            reveal_strlit("MATCHED_GAME");
        }
        match self {
            GameQueryType::Rank => "MATCHED_GAME",
            GameQueryType::PolarChaos => "MATCHED_GAME",
        }
    }
}

/// Which player a participant entry is.
pub struct ParticipantIdentity {
    pub participant_id: usize,
    pub player: ParticipantPlayer,
}

/// A player's account.
pub struct ParticipantPlayer {
    pub account_id: usize,
    pub summoner_id: usize,
    pub summoner_name: String,
}

/// One participant of a match, with the statistics of their game.
pub struct Participant {
    pub champion_id: usize,
    pub highest_achieved_season_tier: String,
    pub participant_id: usize,
    pub stats: ParticipantStats,
}

/// What a participant achieved in one match.
#[derive(Clone, Copy, Debug, PartialEq, Eq, Structural)]
pub struct ParticipantStats {
    pub assists: usize,
    pub caused_early_surrender: bool,
    pub deaths: usize,
    pub kills: usize,
    pub double_kills: usize,
    pub triple_kills: usize,
    pub quadra_kills: usize,
    pub penta_kills: usize,
    pub killing_sprees: usize,
    pub total_damage_dealt_to_champions: usize,
    pub first_blood_assist: bool,
    pub first_blood_kill: bool,
    pub win: bool,
}

/// A chat conversation of the game client.
pub struct GameChatConversation {
    pub id: String,
    pub conversation_type: String,
}

/// One message of a chat conversation.
pub struct GameChatConversationMessage {
    pub body: String,
    pub from_id: String,
    pub from_pid: String,
    pub from_summoner_id: usize,
    pub id: String,
    pub is_historical: bool,
    pub timestamp: String,
    pub message_type: String,
}

/// The score that one match's statistics earn.
pub open spec fn match_score(s: ParticipantStats) -> int {
    100
        + (if s.first_blood_kill { 10int } else { 0 })
        + (if s.first_blood_assist { 5int } else { 0 })
        - (if s.caused_early_surrender { 10int } else { 0 })
        + (if s.win { 5int } else { -5 })
        + 2 * s.double_kills
        + 5 * s.triple_kills
        + 10 * s.quadra_kills
        + 15 * s.penta_kills
        + s.assists
        + 2 * s.kills
        - s.deaths
}

/// A bound on the size of any one match score.
pub const SCORE_BOUND: i128 = 1180591620717411303424;

impl ParticipantStats {
    pub fn get_match_score(&self) -> (r: i128)
        ensures
            r == match_score(*self),
            -SCORE_BOUND <= r <= SCORE_BOUND,
    {
        let mut score: i128 = 100;
        if self.first_blood_kill {
            score = score + 10;
        }
        if self.first_blood_assist {
            score = score + 5;
        }
        if self.caused_early_surrender {
            score = score - 10;
        }
        if self.win {
            score = score + 5;
        } else {
            score = score - 5;
        }
        score = score + self.double_kills as i128 * 2;
        score = score + self.triple_kills as i128 * 5;
        score = score + self.quadra_kills as i128 * 10;
        score = score + self.penta_kills as i128 * 15;
        score = score + self.assists as i128;
        score = score + self.kills as i128 * 2;
        score = score - self.deaths as i128;
        score
    }
}

/// Whether a match is one that a query type selects.
pub open spec fn matches_query(g: Game, q: GameQueryType) -> bool {
    &&& g.game_mode@ == game_mode_of(q)
    &&& g.game_type@ == game_type_of(q)
    &&& g.queue_id == queue_id_of(q)
}

/// The scores of the selected matches, in order: each is the score of the
/// match's first participant, and a match without participants adds none.
pub open spec fn selected_scores(games: Seq<Game>, q: GameQueryType) -> Seq<int>
    decreases games.len(),
{
    if games.len() == 0 {
        seq![]
    } else {
        let g = games.last();
        let rest = selected_scores(games.drop_last(), q);
        if matches_query(g, q) && g.participants@.len() > 0 {
            rest.push(match_score(g.participants@[0].stats))
        } else {
            rest
        }
    }
}

/// The sum of a sequence of integers.
pub open spec fn sum_of(s: Seq<int>) -> int
    decreases s.len(),
{
    if s.len() == 0 {
        0
    } else {
        sum_of(s.drop_last()) + s.last()
    }
}

/// The most matches whose scores are averaged in one history: far more than
/// any history holds, and small enough that two averages compare exactly in
/// 128-bit integers.
pub const MAX_GAMES: usize = 16777216;

/// The average score as an exact fraction `total / count`.
#[derive(Clone, Copy, Debug, PartialEq, Eq, Structural)]
pub struct ScoreAverage {
    pub total: i128,
    pub count: usize,
}

/// The score that stands for a player without any selected match.
pub const DEFAULT_SCORE: i128 = 95;

impl ScoreAverage {
    /// Bounds that every average built from match scores keeps.
    pub open spec fn wf(self) -> bool {
        &&& 1 <= self.count <= MAX_GAMES
        &&& -(self.count as int) * SCORE_BOUND <= self.total <= (self.count as int) * SCORE_BOUND
    }

    /// The average of a sequence of scores; with no scores, the default.
    pub open spec fn of_scores(self, s: Seq<int>) -> bool {
        if s.len() == 0 {
            self.total == DEFAULT_SCORE && self.count == 1
        } else {
            self.total == sum_of(s) && self.count == s.len()
        }
    }
}

/// No match lists a participant identity.
pub open spec fn no_named_game(games: Seq<Game>) -> bool {
    forall|i: int| 0 <= i < games.len() ==> #[trigger] games[i].participant_identities@.len() == 0
}

/// Match `i` is the first that lists a participant identity.
pub open spec fn is_first_named(games: Seq<Game>, i: int) -> bool {
    &&& 0 <= i < games.len()
    &&& games[i].participant_identities@.len() > 0
    &&& forall|j: int| 0 <= j < i ==> #[trigger] games[j].participant_identities@.len() == 0
}

/// The name of the first participant identity of match `i`.
pub open spec fn name_at(games: Seq<Game>, i: int) -> Seq<char> {
    games[i].participant_identities@[0].player.summoner_name@
}

impl GameMatchList {
    /// The name of the player: that of the first participant identity of the
    /// first match that lists any.
    pub fn get_summoner_name(&self) -> (r: Option<&str>)
        ensures
            r is None <==> no_named_game(self.games.games@),
            r is Some ==> exists|i: int|
                is_first_named(self.games.games@, i) && r->0@ == #[trigger] name_at(
                    self.games.games@,
                    i,
                ),
    {
        let mut i: usize = 0;
        while i < self.games.games.len()
            invariant
                i <= self.games.games@.len(),
                forall|j: int| 0 <= j < i ==> self.games.games@[j].participant_identities@.len() == 0,
            decreases self.games.games@.len() - i,
        {
            if self.games.games[i].participant_identities.len() > 0 {
                let name = self.games.games[i].participant_identities[0].player.summoner_name.as_str();
                assert(self.games.games@[i as int].participant_identities@.len() > 0);
                assert(name@ == name_at(self.games.games@, i as int));
                assert(is_first_named(self.games.games@, i as int));
                return Some(name);
            }
            i = i + 1;
        }
        None
    }

    /// The average score of the recent matches that the query type selects.
    pub fn get_recently_rank_average_score(&self, game_query_type: &GameQueryType) -> (r:
        ScoreAverage)
        requires
            self.games.games@.len() <= MAX_GAMES,
        ensures
            r.of_scores(selected_scores(self.games.games@, *game_query_type)),
            r.wf(),
    {
        let games = &self.games.games;
        let mode = game_query_type.get_game_mode().to_owned();
        let kind = game_query_type.get_game_type().to_owned();
        let queue = game_query_type.get_queue_id();
        let mut total: i128 = 0;
        let mut count: usize = 0;
        let mut i: usize = 0;
        while i < games.len()
            invariant
                i <= games@.len() <= MAX_GAMES,
                mode@ == game_mode_of(*game_query_type),
                kind@ == game_type_of(*game_query_type),
                queue == queue_id_of(*game_query_type),
                total == sum_of(selected_scores(games@.take(i as int), *game_query_type)),
                count == selected_scores(games@.take(i as int), *game_query_type).len(),
                count <= i,
                -(count as int) * SCORE_BOUND <= total <= (count as int) * SCORE_BOUND,
            decreases games@.len() - i,
        {
            let g = &games[i];
            proof {
                assert(games@.take(i + 1).drop_last() =~= games@.take(i as int));
                assert(games@.take(i + 1).last() == games@[i as int]);
            }
            if g.game_mode == mode && g.game_type == kind && g.queue_id == queue
                && g.participants.len() > 0 {
                let score = g.participants[0].stats.get_match_score();
                assert((count as int) * SCORE_BOUND + SCORE_BOUND == (count as int + 1) * SCORE_BOUND)
                    by (nonlinear_arith);
                assert(-(count as int) * SCORE_BOUND - SCORE_BOUND == -(count as int + 1) * SCORE_BOUND)
                    by (nonlinear_arith);
                assert((count as int) * SCORE_BOUND <= (MAX_GAMES as int) * SCORE_BOUND)
                    by (nonlinear_arith)
                    requires count <= MAX_GAMES;
                proof {
                    let prev = selected_scores(games@.take(i as int), *game_query_type);
                    assert(prev.push(score as int).drop_last() =~= prev);
                }
                total = total + score;
                count = count + 1;
            }
            i = i + 1;
        }
        proof {
            assert(games@.take(games@.len() as int) =~= games@);
        }
        if count == 0 {
            ScoreAverage { total: DEFAULT_SCORE, count: 1 }
        } else {
            ScoreAverage { total, count }
        }
    }
}

/// A match with no events and a loss scores 95.
pub proof fn lemma_idle_loss_score(s: ParticipantStats)
    requires
        !s.caused_early_surrender,
        !s.first_blood_assist,
        !s.first_blood_kill,
        !s.win,
        s.assists == 0,
        s.deaths == 0,
        s.kills == 0,
        s.double_kills == 0,
        s.triple_kills == 0,
        s.quadra_kills == 0,
        s.penta_kills == 0,
        s.killing_sprees == 0,
        s.total_damage_dealt_to_champions == 0,
    ensures
        match_score(s) == 95,
{
}

/// With the flags held fixed, more kills, assists and multi-kills never lower
/// the score, and more deaths never raise it.
pub proof fn lemma_score_monotone(a: ParticipantStats, b: ParticipantStats)
    requires
        a.caused_early_surrender == b.caused_early_surrender,
        a.first_blood_assist == b.first_blood_assist,
        a.first_blood_kill == b.first_blood_kill,
        a.win == b.win,
        a.kills <= b.kills,
        a.assists <= b.assists,
        a.double_kills <= b.double_kills,
        a.triple_kills <= b.triple_kills,
        a.quadra_kills <= b.quadra_kills,
        a.penta_kills <= b.penta_kills,
        a.deaths >= b.deaths,
    ensures
        match_score(a) <= match_score(b),
{
}

proof fn lemma_none_selected(games: Seq<Game>, q: GameQueryType)
    requires
        forall|i: int| 0 <= i < games.len() ==> !matches_query(#[trigger] games[i], q),
    ensures
        selected_scores(games, q).len() == 0,
    decreases games.len(),
{
    if games.len() > 0 {
        lemma_none_selected(games.drop_last(), q);
    }
}

/// When no match is of the query type, the average is exactly the default 95.
pub proof fn lemma_average_without_matches(games: Seq<Game>, q: GameQueryType, r: ScoreAverage)
    requires
        forall|i: int| 0 <= i < games.len() ==> !matches_query(#[trigger] games[i], q),
        r.of_scores(selected_scores(games, q)),
    ensures
        r.total == DEFAULT_SCORE,
        r.count == 1,
{
    lemma_none_selected(games, q);
}

proof fn lemma_one_selected(games: Seq<Game>, q: GameQueryType, m: int)
    requires
        0 <= m < games.len(),
        matches_query(games[m], q),
        games[m].participants@.len() > 0,
        forall|i: int| 0 <= i < games.len() && i != m ==> !matches_query(#[trigger] games[i], q),
    ensures
        selected_scores(games, q) == seq![match_score(games[m].participants@[0].stats)],
    decreases games.len(),
{
    if games.len() - 1 == m {
        lemma_none_selected(games.drop_last(), q);
        assert(selected_scores(games.drop_last(), q) =~= Seq::<int>::empty());
        assert(selected_scores(games, q) =~= seq![match_score(games[m].participants@[0].stats)]);
    } else {
        lemma_one_selected(games.drop_last(), q, m);
    }
}

/// When exactly one match is of the query type, the average is that match's
/// score, over a count of one.
pub proof fn lemma_average_of_one_match(games: Seq<Game>, q: GameQueryType, m: int, r: ScoreAverage)
    requires
        0 <= m < games.len(),
        matches_query(games[m], q),
        games[m].participants@.len() > 0,
        forall|i: int| 0 <= i < games.len() && i != m ==> !matches_query(#[trigger] games[i], q),
        r.of_scores(selected_scores(games, q)),
    ensures
        r.total == match_score(games[m].participants@[0].stats),
        r.count == 1,
{
    lemma_one_selected(games, q, m);
    let s = selected_scores(games, q);
    assert(s.drop_last() =~= Seq::<int>::empty());
    assert(sum_of(s) == sum_of(s.drop_last()) + s.last());
}

} // verus!
