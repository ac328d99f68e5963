use vstd::prelude::*;
use crate::model::{no_named_game, is_first_named, name_at, GameMatchList, GameQueryType, ScoreAverage, SCORE_BOUND, MAX_GAMES, selected_scores};

verus! {

/// A player's name with their average score.
pub struct PlayerScore {
    pub name: String,
    pub score: ScoreAverage,
}

/// A player who received a tier label, with where they stood in the input.
pub struct RankedPlayer {
    pub label: &'static str,
    pub name: String,
    pub score: ScoreAverage,
    pub index: usize,
}

/// How many tier labels there are.
pub const TIER_COUNT: usize = 5;

/// The tier label of the player at a position, counted from the best.
pub open spec fn tier_label(i: int) -> Seq<char> {
    if i == 0 {
        "上等马"@
    } else if i == 1 {
        "中等马"@
    } else if i == 2 {
        "下等马"@
    } else if i == 3 {
        "大司马"@
    } else {
        "牛马"@
    }
}

/// `a` is a strictly lower average than `b`.
pub open spec fn score_lt(a: ScoreAverage, b: ScoreAverage) -> bool {
    a.total * b.count < b.total * a.count
}

/// `a` is an average no higher than `b`.
pub open spec fn score_le(a: ScoreAverage, b: ScoreAverage) -> bool {
    a.total * b.count <= b.total * a.count
}

/// Entry `j` ranks above entry `k`: a higher score, or an equal score and a
/// later place in the input (the order of a stable ascending sort, read from
/// its end).
pub open spec fn ranks_above(e: Seq<PlayerScore>, j: int, k: int) -> bool {
    score_lt(e[k].score, e[j].score) || (score_le(e[k].score, e[j].score) && j > k)
}

/// `r` lists the best entries of `e`, best first, each with the label of its
/// place, as many as there are labels or entries.
pub open spec fn is_ranking(e: Seq<PlayerScore>, r: Seq<RankedPlayer>) -> bool {
    &&& r.len() == if e.len() < TIER_COUNT { e.len() } else { TIER_COUNT as nat }
    &&& forall|i: int| 0 <= i < r.len() ==> {
        &&& 0 <= #[trigger] r[i].index < e.len()
        &&& r[i].name@ == e[r[i].index as int].name@
        &&& r[i].score == e[r[i].index as int].score
        &&& r[i].label@ == tier_label(i)
    }
    &&& forall|i: int, k: int| 0 <= i < k < r.len() ==> #[trigger] r[i].index != #[trigger] r[k].index
    &&& forall|i: int, j: int|
        0 <= i < r.len() && 0 <= j < e.len() && j != r[i].index
            && (forall|k: int| 0 <= k < i ==> r[k].index != j)
            ==> #[trigger] ranks_above(e, r[i].index as int, j)
}

proof fn lemma_le_trans(a: ScoreAverage, b: ScoreAverage, c: ScoreAverage)
    requires
        a.wf(),
        b.wf(),
        c.wf(),
        score_le(a, b),
        score_le(b, c),
    ensures
        score_le(a, c),
        score_lt(a, b) || score_lt(b, c) ==> score_lt(a, c),
{
    let (at, ac, bt, bc, ct, cc) = (
        a.total as int,
        a.count as int,
        b.total as int,
        b.count as int,
        c.total as int,
        c.count as int,
    );
    assert(at * bc * cc <= bt * ac * cc) by (nonlinear_arith)
        requires
            at * bc <= bt * ac,
            cc > 0,
    ;
    assert(bt * cc * ac <= ct * bc * ac) by (nonlinear_arith)
        requires
            bt * cc <= ct * bc,
            ac > 0,
    ;
    assert(at * cc * bc <= ct * ac * bc) by (nonlinear_arith)
        requires
            at * bc * cc <= bt * ac * cc,
            bt * cc * ac <= ct * bc * ac,
    ;
    assert(at * cc <= ct * ac) by (nonlinear_arith)
        requires
            at * cc * bc <= ct * ac * bc,
            bc > 0,
    ;
    if score_lt(a, b) || score_lt(b, c) {
        assert(at * bc * cc < bt * ac * cc || bt * cc * ac < ct * bc * ac) by (nonlinear_arith)
            requires
                at * bc < bt * ac || bt * cc < ct * bc,
                cc > 0,
                ac > 0,
        ;
        assert(at * cc * bc < ct * ac * bc) by (nonlinear_arith)
            requires
                at * bc * cc <= bt * ac * cc,
                bt * cc * ac <= ct * bc * ac,
                at * bc * cc < bt * ac * cc || bt * cc * ac < ct * bc * ac,
        ;
        assert(at * cc < ct * ac) by (nonlinear_arith)
            requires
                at * cc * bc < ct * ac * bc,
                bc > 0,
        ;
    }
}

proof fn lemma_ranks_above_trans(e: Seq<PlayerScore>, a: int, b: int, c: int)
    requires
        0 <= a < e.len(),
        0 <= b < e.len(),
        0 <= c < e.len(),
        e[a].score.wf(),
        e[b].score.wf(),
        e[c].score.wf(),
        ranks_above(e, a, b),
        ranks_above(e, b, c),
    ensures
        ranks_above(e, a, c),
{
    lemma_le_trans(e[c].score, e[b].score, e[a].score);
}

/// Whether `a` is strictly lower than `b`.
fn lower_than(a: &ScoreAverage, b: &ScoreAverage) -> (r: bool)
    requires
        a.wf(),
        b.wf(),
    ensures
        r == score_lt(*a, *b),
{
    proof {
        lemma_cross_bound(*a, *b);
        lemma_cross_bound(*b, *a);
    }
    a.total * (b.count as i128) < b.total * (a.count as i128)
}

proof fn lemma_cross_bound(a: ScoreAverage, b: ScoreAverage)
    requires
        a.wf(),
        b.wf(),
    ensures
        -332306998946228968225951765070086144 <= a.total * b.count <= 332306998946228968225951765070086144,
{
    let (at, ac, bc) = (a.total as int, a.count as int, b.count as int);
    assert(ac * SCORE_BOUND <= MAX_GAMES as int * SCORE_BOUND) by (nonlinear_arith)
        requires
            ac <= MAX_GAMES,
    ;
    assert(-(MAX_GAMES as int * SCORE_BOUND) <= at <= MAX_GAMES as int * SCORE_BOUND);
    assert(-(MAX_GAMES as int * SCORE_BOUND) * (MAX_GAMES as int) <= at * bc
        <= (MAX_GAMES as int * SCORE_BOUND) * (MAX_GAMES as int)) by (nonlinear_arith)
        requires
            -(MAX_GAMES as int * SCORE_BOUND) <= at <= MAX_GAMES as int * SCORE_BOUND,
            1 <= bc <= MAX_GAMES,
    ;
}

/// How many entries of a sequence are set.
pub open spec fn count_true(s: Seq<bool>) -> nat
    decreases s.len(),
{
    if s.len() == 0 {
        0
    } else {
        count_true(s.drop_last()) + if s.last() { 1nat } else { 0 }
    }
}

proof fn lemma_count_set(s: Seq<bool>, k: int)
    requires
        0 <= k < s.len(),
        !s[k],
    ensures
        count_true(s.update(k, true)) == count_true(s) + 1,
    decreases s.len(),
{
    let u = s.update(k, true);
    if k == s.len() - 1 {
        assert(u.drop_last() =~= s.drop_last());
    } else {
        assert(u.drop_last() =~= s.drop_last().update(k, true));
        lemma_count_set(s.drop_last(), k);
    }
}

proof fn lemma_count_unset_exists(s: Seq<bool>)
    requires
        count_true(s) < s.len(),
    ensures
        exists|k: int| 0 <= k < s.len() && !s[k],
    decreases s.len(),
{
    if s.last() {
        lemma_count_unset_exists(s.drop_last());
        let k = choose|k: int| 0 <= k < s.drop_last().len() && !s.drop_last()[k];
        assert(!s[k]);
    } else {
        assert(!s[s.len() - 1]);
    }
}

/// The tier label of a position, counted from the best.
fn label_for(i: usize) -> (r: &'static str)
    requires
        i < TIER_COUNT,
    ensures
        r@ == tier_label(i as int),
{
    proof {
        reveal_strlit("上等马");
        reveal_strlit("中等马");
        reveal_strlit("下等马");
        reveal_strlit("大司马");
        reveal_strlit("牛马");
    }
    if i == 0 {
        "上等马"
    } else if i == 1 {
        "中等马"
    } else if i == 2 {
        "下等马"
    } else if i == 3 {
        "大司马"
    } else {
        "牛马"
    }
}

/// Sorts the players by score, ties kept in input order, and hands the tier
/// labels out from the best player down; players beyond the last label get
/// none.
#[verifier::loop_isolation(false)]
pub fn rank_players(entries: &Vec<PlayerScore>) -> (r: Vec<RankedPlayer>)
    requires
        forall|j: int| 0 <= j < entries@.len() ==> (#[trigger] entries@[j]).score.wf(),
    ensures
        is_ranking(entries@, r@),
{
    let n = entries.len();
    let m: usize = if n < TIER_COUNT { n } else { TIER_COUNT };
    let mut taken: Vec<bool> = Vec::new();
    let mut j: usize = 0;
    while j < n
        invariant
            j <= n,
            taken@.len() == j,
            count_true(taken@) == 0,
            forall|k: int| 0 <= k < j ==> !taken@[k],
        decreases n - j,
    {
        proof {
            assert(taken@.push(false).drop_last() =~= taken@);
        }
        taken.push(false);
        j = j + 1;
    }
    let mut out: Vec<RankedPlayer> = Vec::new();
    let mut i: usize = 0;
    while i < m
        invariant
            n == entries@.len(),
            m == if n < TIER_COUNT { n } else { TIER_COUNT },
            forall|j: int| 0 <= j < entries@.len() ==> (#[trigger] entries@[j]).score.wf(),
            i <= m,
            taken@.len() == n,
            out@.len() == i,
            count_true(taken@) == i,
            forall|k: int| 0 <= k < i ==> #[trigger] out@[k].index < n && taken@[out@[k].index as int],
            forall|j: int|
                0 <= j < n && #[trigger] taken@[j] ==> exists|k: int|
                    0 <= k < i && out@[k].index == j,
            forall|k: int| 0 <= k < out@.len() ==> {
                &&& (#[trigger] out@[k]).name@ == entries@[out@[k].index as int].name@
                &&& out@[k].score == entries@[out@[k].index as int].score
                &&& out@[k].label@ == tier_label(k)
            },
            forall|a: int, b: int|
                0 <= a < b < out@.len() ==> #[trigger] out@[a].index != #[trigger] out@[b].index,
            forall|a: int, j: int|
                0 <= a < out@.len() && 0 <= j < n && j != out@[a].index
                    && (forall|k: int| 0 <= k < a ==> out@[k].index != j)
                    ==> #[trigger] ranks_above(entries@, out@[a].index as int, j),
        decreases m - i,
    {
        let mut best: usize = n;
        let mut j: usize = 0;
        while j < n
            invariant
                n == entries@.len(),
                forall|j: int| 0 <= j < entries@.len() ==> (#[trigger] entries@[j]).score.wf(),
                taken@.len() == n,
                j <= n,
                best <= n,
                best == n ==> forall|k: int| 0 <= k < j ==> taken@[k],
                best < n ==> best < j && !taken@[best as int],
                best < n ==> forall|k: int|
                    0 <= k < j && !taken@[k] && k != best ==> ranks_above(entries@, best as int, k),
            decreases n - j,
        {
            if !taken[j] {
                if best == n || !lower_than(&entries[j].score, &entries[best].score) {
                    proof {
                        if best < n {
                            assert(ranks_above(entries@, j as int, best as int));
                            assert forall|k: int|
                                0 <= k < j + 1 && !taken@[k] && k != j implies ranks_above(
                                entries@,
                                j as int,
                                k,
                            ) by {
                                if k != best {
                                    lemma_ranks_above_trans(entries@, j as int, best as int, k);
                                }
                            }
                        }
                    }
                    best = j;
                }
            }
            j = j + 1;
        }
        proof {
            if best == n {
                assert(count_true(taken@) < taken@.len());
                lemma_count_unset_exists(taken@);
                let k = choose|k: int| 0 <= k < taken@.len() && !taken@[k];
                assert(taken@[k]);
            }
        }
        let label = label_for(i);
        let entry = &entries[best];
        let ranked = RankedPlayer {
            label,
            name: entry.name.clone(),
            score: entry.score,
            index: best,
        };
        let ghost old_taken = taken@;
        let ghost old_out = out@;
        proof {
            lemma_count_set(taken@, best as int);
        }
        out.push(ranked);
        taken.set(best, true);
        proof {
            assert forall|j: int| 0 <= j < n && #[trigger] taken@[j] implies exists|k: int|
                0 <= k < i + 1 && out@[k].index == j by {
                if j == best {
                    assert(out@[i as int].index == j);
                } else {
                    assert(old_taken[j]);
                    let k = choose|k: int| 0 <= k < i && old_out[k].index == j;
                    assert(out@[k].index == j);
                }
            }
            assert forall|a: int, j: int|
                0 <= a < out@.len() && 0 <= j < n && j != out@[a].index
                    && (forall|k: int| 0 <= k < a ==> out@[k].index != j)
                    implies #[trigger] ranks_above(entries@, out@[a].index as int, j) by {
                if a == i {
                    if old_taken[j] {
                        let k = choose|k: int| 0 <= k < i && old_out[k].index == j;
                        assert(out@[k].index == j);
                    }
                } else {
                    assert(old_out[a] == out@[a]);
                    assert(forall|k: int| 0 <= k < a ==> old_out[k] == out@[k]);
                }
            }
        }
        i = i + 1;
    }
    out
}

/// No players give no labels; with at most as many players as labels, the
/// best receives the top label; with more, every player left without a label
/// scores no higher than each labelled one.
pub proof fn lemma_ranking_labels(e: Seq<PlayerScore>, r: Seq<RankedPlayer>)
    requires
        is_ranking(e, r),
    ensures
        e.len() == 0 ==> r.len() == 0,
        0 < e.len() <= TIER_COUNT ==> {
            &&& r[0].label@ == tier_label(0)
            &&& forall|j: int| 0 <= j < e.len() ==> score_le(#[trigger] e[j].score, r[0].score)
        },
        e.len() > TIER_COUNT ==> r.len() == TIER_COUNT && forall|i: int, j: int|
            0 <= i < r.len() && 0 <= j < e.len() && (forall|k: int|
                0 <= k < r.len() ==> r[k].index != j) ==> score_le(
                #[trigger] e[j].score,
                #[trigger] r[i].score,
            ),
{
    if 0 < e.len() <= TIER_COUNT {
        assert(r[0].index < e.len());
        assert forall|j: int| 0 <= j < e.len() implies score_le(#[trigger] e[j].score, r[0].score) by {
            if j != r[0].index {
                assert(ranks_above(e, r[0].index as int, j));
            } else {
                assert(r[0].score == e[j].score);
                assert(e[j].score.total * e[j].score.count == e[j].score.total * e[j].score.count);
            }
        }
    }
    if e.len() > TIER_COUNT {
        assert forall|i: int, j: int|
            0 <= i < r.len() && 0 <= j < e.len() && (forall|k: int|
                0 <= k < r.len() ==> r[k].index != j) implies score_le(
            #[trigger] e[j].score,
            #[trigger] r[i].score,
        ) by {
            assert(r[i].index != j);
            assert(forall|k: int| 0 <= k < i ==> r[k].index != j);
            assert(ranks_above(e, r[i].index as int, j));
        }
    }
}

/// The entry of one player in a report: their name and their average score
/// over the matches of the query type; nothing when the history names no
/// player.
pub fn player_score(history: &GameMatchList, game_query_type: &GameQueryType) -> (r: Option<
    PlayerScore,
>)
    requires
        history.games.games@.len() <= MAX_GAMES,
    ensures
        r is None <==> no_named_game(history.games.games@),
        r is Some ==> {
            &&& exists|i: int|
                is_first_named(history.games.games@, i) && r->0.name@ == #[trigger] name_at(
                    history.games.games@,
                    i,
                )
            &&& r->0.score.of_scores(selected_scores(history.games.games@, *game_query_type))
            &&& r->0.score.wf()
        },
{
    match history.get_summoner_name() {
        Some(name) => {
            let score = history.get_recently_rank_average_score(game_query_type);
            Some(PlayerScore { name: name.to_owned(), score })
        },
        None => None,
    }
}

} // verus!
