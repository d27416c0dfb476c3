//! The game rules on the model: quorums, scoring, the final standings, and
//! the transitions between the phases of a round.

use vstd::prelude::*;

use crate::model::{
    players_view, previous_view, ranked_view, Answer, AnsweredQuestion, GameConfiguration,
    GameState, GameStateView, GameView, PlayType, Player, PlayerId, PlayerView, PlayingState,
    PlayingStateView, QuestionId, RankedPlayer,
};
use crate::question_bank::{any_eligible, drawable, GetRandomQuestionIdError, QuestionEntry};
use crate::tables::{PlayerAnswers, PlayerIdSet};

verus! {

/// How long the solution of a question stays on screen.
pub const SOLUTION_TIME_IN_SECONDS: u64 = 30;

/// Points for a correct answer.
pub const POINTS_FOR_CORRECT_ANSWER: u16 = 10;

/// Points for a correct answer that fewer than half of the players gave.
pub const POINTS_FOR_CORRECT_MINORITY_ANSWER: u16 = 15;

/* TIME */

/// `seconds` after `now` (both in milliseconds since the Unix epoch), or the
/// latest representable instant if that lies beyond it.
pub open spec fn deadline_after(now: i64, seconds: u64) -> i64 {
    if now as int + seconds as int * 1000 > i64::MAX as int {
        i64::MAX
    } else {
        (now as int + seconds as int * 1000) as i64
    }
}

/// When the answers to a question that starts at `now` are due.
pub open spec fn question_deadline(c: GameConfiguration, now: i64) -> Option<i64> {
    match c.maximum_answer_time_per_question {
        Some(seconds) => Some(deadline_after(now, seconds)),
        None => None,
    }
}

pub open spec fn deadline_passed(time_until: Option<i64>, now: i64) -> bool {
    match time_until {
        Some(t) => t < now,
        None => false,
    }
}

/* COUNTING */

/// How many participants play (rather than watch).
pub open spec fn count_players(ps: Seq<PlayerView>) -> nat
    decreases ps.len(),
{
    if ps.len() == 0 {
        0
    } else {
        count_players(ps.drop_last()) + if ps.last().play_type is Player {
            1nat
        } else {
            0nat
        }
    }
}

/// How many playing participants are in `ids`.
pub open spec fn count_players_in(ps: Seq<PlayerView>, ids: Set<PlayerId>) -> nat
    decreases ps.len(),
{
    if ps.len() == 0 {
        0
    } else {
        count_players_in(ps.drop_last(), ids) + if ps.last().play_type is Player && ids.contains(
            ps.last().id,
        ) {
            1nat
        } else {
            0nat
        }
    }
}

pub open spec fn answered_correctly(
    p: PlayerView,
    answers: Map<PlayerId, Answer>,
    truth: Answer,
) -> bool {
    answers.contains_key(p.id) && answers[p.id] == truth
}

/// How many playing participants answered `truth`.
pub open spec fn count_correct(
    ps: Seq<PlayerView>,
    answers: Map<PlayerId, Answer>,
    truth: Answer,
) -> nat
    decreases ps.len(),
{
    if ps.len() == 0 {
        0
    } else {
        count_correct(ps.drop_last(), answers, truth) + if ps.last().play_type is Player
            && answered_correctly(ps.last(), answers, truth) {
            1nat
        } else {
            0nat
        }
    }
}

/// Whether every playing participant is in `ids`.
pub open spec fn all_players_in(ps: Seq<PlayerView>, ids: Set<PlayerId>) -> bool {
    forall|i: int| 0 <= i < ps.len() && (#[trigger] ps[i]).play_type is Player ==> ids.contains(ps[i].id)
}

pub proof fn lemma_count_players_in_bound(ps: Seq<PlayerView>, ids: Set<PlayerId>)
    ensures
        count_players_in(ps, ids) <= count_players(ps),
    decreases ps.len(),
{
    if ps.len() > 0 {
        lemma_count_players_in_bound(ps.drop_last(), ids);
    }
}

proof fn lemma_count_players_bound(ps: Seq<PlayerView>)
    ensures
        count_players(ps) <= ps.len(),
    decreases ps.len(),
{
    if ps.len() > 0 {
        lemma_count_players_bound(ps.drop_last());
    }
}

proof fn lemma_count_correct_bound(ps: Seq<PlayerView>, answers: Map<PlayerId, Answer>, truth: Answer)
    ensures
        count_correct(ps, answers, truth) <= count_players(ps),
    decreases ps.len(),
{
    if ps.len() > 0 {
        lemma_count_correct_bound(ps.drop_last(), answers, truth);
    }
}

/* SCORING */

/// `points + gain`, or the largest number of points if that overflows.
pub open spec fn add_points(points: u16, gain: u16) -> u16 {
    if points as int + gain as int > u16::MAX as int {
        u16::MAX
    } else {
        (points + gain) as u16
    }
}

/// Whether the players who answered correctly are fewer than half of all
/// players.
pub open spec fn minority_bonus(ps: Seq<PlayerView>, answers: Map<PlayerId, Answer>, truth: Answer) -> bool {
    2 * count_correct(ps, answers, truth) < count_players(ps)
}

pub open spec fn scored_player(
    p: PlayerView,
    answers: Map<PlayerId, Answer>,
    truth: Answer,
    bonus: bool,
) -> PlayerView {
    match p.play_type {
        PlayType::Player { points } => if answered_correctly(p, answers, truth) {
            PlayerView {
                id: p.id,
                name: p.name,
                play_type: PlayType::Player {
                    points: add_points(
                        points,
                        if bonus {
                            POINTS_FOR_CORRECT_MINORITY_ANSWER
                        } else {
                            POINTS_FOR_CORRECT_ANSWER
                        },
                    ),
                },
            }
        } else {
            p
        },
        PlayType::Watcher => p,
    }
}

/// The participants after a question was resolved: each player who answered
/// `truth` gains points, more of them when such players are a minority.
pub open spec fn scored_players(
    ps: Seq<PlayerView>,
    answers: Map<PlayerId, Answer>,
    truth: Answer,
) -> Seq<PlayerView> {
    let bonus = minority_bonus(ps, answers, truth);
    ps.map_values(|p: PlayerView| scored_player(p, answers, truth, bonus))
}

/* STANDINGS */

/// The playing participants, in order, with their names and points.
pub open spec fn ranking(ps: Seq<PlayerView>) -> Seq<(PlayerId, Seq<char>, u16)>
    decreases ps.len(),
{
    if ps.len() == 0 {
        Seq::empty()
    } else {
        let r = ranking(ps.drop_last());
        match ps.last().play_type {
            PlayType::Player { points } => r.push((ps.last().id, ps.last().name, points)),
            PlayType::Watcher => r,
        }
    }
}

/* TRANSITIONS */

/// What the transition check does in a given state.
#[derive(Clone, Copy, PartialEq, Eq, Structural, Debug)]
pub enum PlayingStep {
    /// No transition is due.
    Stay,
    /// Question to Solution: the answers are scored.
    RevealSolution,
    /// Solution to the next Question.
    NextQuestion,
    /// Solution to Aftermath: the round is over.
    FinishRound,
    /// Aftermath to a new round.
    Restart,
}

/// The transition that is due in `g` at `now`.
pub open spec fn playing_step(g: GameView, now: i64) -> PlayingStep {
    match g.game_state {
        GameStateView::InLobby => PlayingStep::Stay,
        GameStateView::Aftermath { restart_requests, .. } => if 2 * count_players_in(
            g.players,
            restart_requests,
        ) >= count_players(g.players) {
            PlayingStep::Restart
        } else {
            PlayingStep::Stay
        },
        GameStateView::Playing { previous_questions, playing_state, .. } => match playing_state {
            PlayingStateView::Question { time_until, answers } => if question_round_complete(
                g.players,
                answers,
                time_until,
                now,
            ) {
                PlayingStep::RevealSolution
            } else {
                PlayingStep::Stay
            },
            PlayingStateView::Solution { time_until, skip_request, .. } => if all_players_in(
                g.players,
                skip_request,
            ) || time_until < now {
                if previous_questions.len() + 1 < g.configuration.count_of_questions {
                    PlayingStep::NextQuestion
                } else {
                    PlayingStep::FinishRound
                }
            } else {
                PlayingStep::Stay
            },
        },
    }
}

/// Whether the answers to the current question are complete: there are no
/// players, every player answered, or the time is up.
pub open spec fn question_round_complete(
    ps: Seq<PlayerView>,
    answers: Map<PlayerId, Answer>,
    time_until: Option<i64>,
    now: i64,
) -> bool {
    count_players(ps) == 0 || all_players_in(ps, answers.dom()) || deadline_passed(time_until, now)
}

/// A question that starts at `now`, without answers.
pub open spec fn new_question_state(c: GameConfiguration, now: i64) -> PlayingStateView {
    PlayingStateView::Question { time_until: question_deadline(c, now), answers: Map::empty() }
}

/// A round that starts at `now` with question `q`.
pub open spec fn new_round(c: GameConfiguration, now: i64, q: AnsweredQuestion) -> GameStateView {
    GameStateView::Playing {
        previous_questions: Seq::empty(),
        current_question: q,
        playing_state: new_question_state(c, now),
    }
}

pub open spec fn current_question_of(s: GameStateView) -> AnsweredQuestion {
    match s {
        GameStateView::Playing { current_question, .. } => current_question,
        _ => arbitrary(),
    }
}

pub open spec fn with_state(g: GameView, s: GameStateView) -> GameView {
    GameView { configuration: g.configuration, game_state: s, players: g.players }
}

pub open spec fn with_players(g: GameView, ps: Seq<PlayerView>) -> GameView {
    GameView { configuration: g.configuration, game_state: g.game_state, players: ps }
}

/// Question to Solution: score the answers and show the solution for a while.
pub open spec fn reveal_solution(g: GameView, now: i64) -> GameView {
    match g.game_state {
        GameStateView::Playing {
            previous_questions,
            current_question,
            playing_state: PlayingStateView::Question { answers, .. },
        } => GameView {
            configuration: g.configuration,
            game_state: GameStateView::Playing {
                previous_questions,
                current_question,
                playing_state: PlayingStateView::Solution {
                    time_until: deadline_after(now, SOLUTION_TIME_IN_SECONDS),
                    answers,
                    skip_request: Set::empty(),
                },
            },
            players: scored_players(g.players, answers, current_question.answer),
        },
        _ => g,
    }
}

/// The questions of the round so far, the current one included.
pub open spec fn stored_questions(g: GameView) -> Seq<(AnsweredQuestion, Map<PlayerId, Answer>)> {
    match g.game_state {
        GameStateView::Playing { previous_questions, current_question, playing_state } =>
            match playing_state {
            PlayingStateView::Solution { answers, .. } => previous_questions.push(
                (current_question, answers),
            ),
            PlayingStateView::Question { answers, .. } => previous_questions.push(
                (current_question, answers),
            ),
        },
        _ => Seq::empty(),
    }
}

/// The questions that the next draw of the round must avoid.
pub open spec fn excluded_after(g: GameView) -> Seq<QuestionId> {
    stored_questions(g).map_values(|e: (AnsweredQuestion, Map<PlayerId, Answer>)| e.0.question_id)
}

/// Solution to the next Question `q`.
pub open spec fn advance_question(g: GameView, now: i64, q: AnsweredQuestion) -> GameView {
    with_state(
        g,
        GameStateView::Playing {
            previous_questions: stored_questions(g),
            current_question: q,
            playing_state: new_question_state(g.configuration, now),
        },
    )
}

/// Solution to Aftermath: the standings are fixed.
pub open spec fn finish_round(g: GameView) -> GameView {
    with_state(
        g,
        GameStateView::Aftermath { ranked_players: ranking(g.players), restart_requests: Set::empty() },
    )
}

/// Aftermath to a new round that starts with `q`.
pub open spec fn restart_round(g: GameView, now: i64, q: AnsweredQuestion) -> GameView {
    with_state(g, new_round(g.configuration, now, q))
}

/// What running the transition check on `g` at `now` may lead to: `h` and `r`
/// are the resulting room and result. Where a new question is needed, it is
/// one that the bank may draw, and the check fails exactly when there is none.
pub open spec fn playing_update_outcome(
    g: GameView,
    now: i64,
    bank: Seq<QuestionEntry>,
    h: GameView,
    r: Result<bool, GetRandomQuestionIdError>,
) -> bool {
    let minimum = g.configuration.minimum_score_per_question;
    match playing_step(g, now) {
        PlayingStep::Stay => h == g && r == Ok::<bool, GetRandomQuestionIdError>(false),
        PlayingStep::RevealSolution => h == reveal_solution(g, now) && r == Ok::<
            bool,
            GetRandomQuestionIdError,
        >(true),
        PlayingStep::FinishRound => h == finish_round(g) && r == Ok::<bool, GetRandomQuestionIdError>(
            true,
        ),
        PlayingStep::NextQuestion => match r {
            Ok(changed) => {
                &&& changed
                &&& h == advance_question(g, now, current_question_of(h.game_state))
                &&& drawable(bank, current_question_of(h.game_state), minimum, excluded_after(g))
            },
            Err(_) => h == g && !any_eligible(bank, minimum, excluded_after(g)),
        },
        PlayingStep::Restart => match r {
            Ok(changed) => {
                &&& changed
                &&& h == restart_round(g, now, current_question_of(h.game_state))
                &&& drawable(bank, current_question_of(h.game_state), minimum, Seq::empty())
            },
            Err(_) => h == g && !any_eligible(bank, minimum, Seq::empty()),
        },
    }
}

/* EXECUTABLE RULES */

/// `seconds` after `now`, saturating at the latest representable instant.
pub fn deadline_after_seconds(now: i64, seconds: u64) -> (r: i64)
    ensures
        r == deadline_after(now, seconds),
{
    let t: i128 = now as i128 + (seconds as i128) * 1000;
    if t > i64::MAX as i128 {
        i64::MAX
    } else {
        t as i64
    }
}

/// How many participants play rather than watch.
pub fn count_of_player_type_player(players: &Vec<Player>) -> (r: usize)
    ensures
        r == count_players(players_view(players@)),
{
    let ghost pv = players_view(players@);
    let mut count: usize = 0;
    let mut i: usize = 0;
    while i < players.len()
        invariant
            i <= players.len(),
            pv == players_view(players@),
            count == count_players(pv.subrange(0, i as int)),
        decreases players.len() - i,
    {
        proof {
            assert(pv.subrange(0, i + 1).drop_last() =~= pv.subrange(0, i as int));
            lemma_count_players_bound(pv.subrange(0, i as int));
        }
        if players[i].is_player() {
            count = count + 1;
        }
        i = i + 1;
    }
    assert(pv.subrange(0, i as int) =~= pv);
    count
}

/// How many playing participants are in `ids`.
pub fn count_players_requesting(players: &Vec<Player>, ids: &PlayerIdSet) -> (r: usize)
    ensures
        r == count_players_in(players_view(players@), ids@),
{
    let ghost pv = players_view(players@);
    let mut count: usize = 0;
    let mut i: usize = 0;
    while i < players.len()
        invariant
            i <= players.len(),
            pv == players_view(players@),
            count == count_players_in(pv.subrange(0, i as int), ids@),
        decreases players.len() - i,
    {
        proof {
            assert(pv.subrange(0, i + 1).drop_last() =~= pv.subrange(0, i as int));
            lemma_count_players_in_bound(pv.subrange(0, i as int), ids@);
            lemma_count_players_bound(pv.subrange(0, i as int));
        }
        if players[i].is_player() && ids.contains(players[i].id) {
            count = count + 1;
        }
        i = i + 1;
    }
    assert(pv.subrange(0, i as int) =~= pv);
    count
}

/// How many playing participants answered `truth`.
pub fn count_correct_players(players: &Vec<Player>, answers: &PlayerAnswers, truth: Answer) -> (r:
    usize)
    requires
    ensures
        r == count_correct(players_view(players@), answers@, truth),
{
    let ghost pv = players_view(players@);
    let mut count: usize = 0;
    let mut i: usize = 0;
    while i < players.len()
        invariant
            i <= players.len(),
            pv == players_view(players@),
            count == count_correct(pv.subrange(0, i as int), answers@, truth),
        decreases players.len() - i,
    {
        proof {
            assert(pv.subrange(0, i + 1).drop_last() =~= pv.subrange(0, i as int));
            lemma_count_correct_bound(pv.subrange(0, i as int), answers@, truth);
            lemma_count_players_bound(pv.subrange(0, i as int));
        }
        if players[i].is_player() {
            match answers.get(players[i].id) {
                Some(a) => {
                    if a == truth {
                        count = count + 1;
                    }
                },
                None => {},
            }
        }
        i = i + 1;
    }
    assert(pv.subrange(0, i as int) =~= pv);
    count
}

/// Whether every playing participant has answered.
pub fn all_players_answered(players: &Vec<Player>, answers: &PlayerAnswers) -> (r: bool)
    requires
    ensures
        r == all_players_in(players_view(players@), answers@.dom()),
{
    let ghost pv = players_view(players@);
    let mut i: usize = 0;
    while i < players.len()
        invariant
            i <= players.len(),
            pv == players_view(players@),
            forall|k: int|
                0 <= k < i && (#[trigger] pv[k]).play_type is Player ==> answers@.dom().contains(
                    pv[k].id,
                ),
        decreases players.len() - i,
    {
        if players[i].is_player() && !answers.contains_key(players[i].id) {
            assert(pv[i as int].play_type is Player);
            return false;
        }
        i = i + 1;
    }
    true
}

/// Whether every playing participant is in `ids`.
pub fn all_players_requested(players: &Vec<Player>, ids: &PlayerIdSet) -> (r: bool)
    ensures
        r == all_players_in(players_view(players@), ids@),
{
    let ghost pv = players_view(players@);
    let mut i: usize = 0;
    while i < players.len()
        invariant
            i <= players.len(),
            pv == players_view(players@),
            forall|k: int|
                0 <= k < i && (#[trigger] pv[k]).play_type is Player ==> ids@.contains(pv[k].id),
        decreases players.len() - i,
    {
        if players[i].is_player() && !ids.contains(players[i].id) {
            assert(pv[i as int].play_type is Player);
            return false;
        }
        i = i + 1;
    }
    true
}

/// Awards the points for the answers to a question whose label is `truth`.
pub fn score_players(players: &mut Vec<Player>, answers: &PlayerAnswers, truth: Answer)
    requires
    ensures
        players_view(final(players)@) == scored_players(players_view(old(players)@), answers@, truth),
{
    let total = count_of_player_type_player(players);
    let correct = count_correct_players(players, answers, truth);
    let ghost old_pv = players_view(players@);
    proof {
        lemma_count_correct_bound(old_pv, answers@, truth);
    }
    let bonus = correct < total - correct;
    let gain: u16 = if bonus {
        POINTS_FOR_CORRECT_MINORITY_ANSWER
    } else {
        POINTS_FOR_CORRECT_ANSWER
    };
    let mut i: usize = 0;
    while i < players.len()
        invariant
            players@.len() == old_pv.len(),
            i <= players@.len(),
            bonus == minority_bonus(old_pv, answers@, truth),
            gain == (if bonus {
                POINTS_FOR_CORRECT_MINORITY_ANSWER
            } else {
                POINTS_FOR_CORRECT_ANSWER
            }),
            forall|k: int|
                0 <= k < i ==> (#[trigger] players@[k])@ == scored_player(
                    old_pv[k],
                    answers@,
                    truth,
                    bonus,
                ),
            forall|k: int| i <= k < players@.len() ==> (#[trigger] players@[k])@ == old_pv[k],
        decreases players@.len() - i,
    {
        match players[i].play_type {
            PlayType::Player { points } => {
                match answers.get(players[i].id) {
                    Some(a) => {
                        if a == truth {
                            players[i].play_type = PlayType::Player {
                                points: points.saturating_add(gain),
                            };
                        }
                    },
                    None => {},
                }
            },
            PlayType::Watcher => {},
        }
        i = i + 1;
    }
    assert(players_view(players@) =~= scored_players(old_pv, answers@, truth));
}

/// The final standings: every playing participant with name and points.
pub fn ranked_players_of(players: &Vec<Player>) -> (r: Vec<RankedPlayer>)
    ensures
        ranked_view(r@) == ranking(players_view(players@)),
{
    let ghost pv = players_view(players@);
    let mut r: Vec<RankedPlayer> = Vec::new();
    let mut i: usize = 0;
    while i < players.len()
        invariant
            i <= players.len(),
            pv == players_view(players@),
            ranked_view(r@) == ranking(pv.subrange(0, i as int)),
        decreases players.len() - i,
    {
        proof {
            assert(pv.subrange(0, i + 1).drop_last() =~= pv.subrange(0, i as int));
        }
        match players[i].play_type {
            PlayType::Player { points } => {
                let ghost before = r@;
                r.push((players[i].id, players[i].name.duplicate(), points));
                assert(ranked_view(r@) =~= ranked_view(before).push(
                    (pv[i as int].id, pv[i as int].name, points),
                ));
            },
            PlayType::Watcher => {},
        }
        i = i + 1;
    }
    assert(pv.subrange(0, i as int) =~= pv);
    r
}

/// A question that starts at `now`, without answers.
pub fn create_new_playing_state_question(game_configuration: &GameConfiguration, now: i64) -> (r:
    PlayingState)
    ensures
        r@ == new_question_state(*game_configuration, now),
{
    let time_until = match game_configuration.maximum_answer_time_per_question {
        Some(seconds) => Some(deadline_after_seconds(now, seconds)),
        None => None,
    };
    PlayingState::Question { time_until, answers: PlayerAnswers::new() }
}

/// A round that starts at `now` with `first_question`.
pub fn create_new_game_state_playing(
    game_configuration: &GameConfiguration,
    now: i64,
    first_question: AnsweredQuestion,
) -> (r: GameState)
    ensures
        r@ == new_round(*game_configuration, now, first_question),
{
    let r = GameState::Playing {
        previous_questions: Vec::new(),
        current_question: first_question,
        playing_state: create_new_playing_state_question(game_configuration, now),
    };
    assert(r@ =~= new_round(*game_configuration, now, first_question)) by {
        assert(previous_view(Seq::<(AnsweredQuestion, PlayerAnswers)>::empty()) =~= Seq::empty());
    }
    r
}

} // verus!
