//! Properties of the game rules that hold across states and across calls.

use vstd::prelude::*;

use crate::lobby::with_answer;
use crate::model::{game_view_wf, Answer, GameView, PlayType, PlayerId, PlayerView};
use crate::rules::{finish_round, playing_step, ranking, reveal_solution, PlayingStep};

verus! {

/// A round that is being played has not yet played all of its questions:
/// with at least one question configured, the number of questions already
/// played stays below the configured number. The invariant `Game::wf`, which
/// a new room has and every event keeps, implies it.
pub proof fn lemma_playing_below_question_count(g: GameView)
    requires
        game_view_wf(g),
        g.configuration.count_of_questions >= 1,
        g.game_state is Playing,
    ensures
        g.game_state->previous_questions.len() < g.configuration.count_of_questions,
{
}

/// Whether `e` names a participant of `ps` who plays, with that
/// participant's name and points.
pub open spec fn entry_of_player(ps: Seq<PlayerView>, e: (PlayerId, Seq<char>, u16)) -> bool {
    exists|j: int|
        0 <= j < ps.len() && (#[trigger] ps[j]).id == e.0 && ps[j].name == e.1 && ps[j].play_type
            == (PlayType::Player { points: e.2 })
}

/// Every entry of the standings belongs to a participant who played (never a
/// watcher), with that participant's name and points.
pub proof fn lemma_ranking_lists_only_players(ps: Seq<PlayerView>)
    ensures
        forall|i: int| 0 <= i < ranking(ps).len() ==> entry_of_player(ps, #[trigger] ranking(ps)[i]),
    decreases ps.len(),
{
    if ps.len() > 0 {
        let init = ps.drop_last();
        lemma_ranking_lists_only_players(init);
        assert forall|i: int| 0 <= i < ranking(ps).len() implies entry_of_player(
            ps,
            #[trigger] ranking(ps)[i],
        ) by {
            if i < ranking(init).len() {
                assert(ranking(ps)[i] == ranking(init)[i]);
                assert(entry_of_player(init, ranking(init)[i]));
                let j = choose|j: int|
                    0 <= j < init.len() && (#[trigger] init[j]).id == ranking(init)[i].0
                        && init[j].name == ranking(init)[i].1 && init[j].play_type == (
                    PlayType::Player { points: ranking(init)[i].2 });
                assert(ps[j] == init[j]);
            } else {
                assert(ps[ps.len() - 1] == ps.last());
            }
        }
    }
}

/// When a round ends, the standings of the Aftermath list only participants
/// that were playing (not watching) at that moment, with their points then.
pub proof fn lemma_aftermath_ranks_only_players(g: GameView, now: i64)
    requires
        playing_step(g, now) == PlayingStep::FinishRound,
    ensures
        finish_round(g).game_state is Aftermath,
        forall|i: int|
            0 <= i < finish_round(g).game_state->ranked_players.len() ==> entry_of_player(
                g.players,
                #[trigger] finish_round(g).game_state->ranked_players[i],
            ),
{
    lemma_ranking_lists_only_players(g.players);
}

/// Answering twice overwrites: the second answer replaces the first, the
/// answers still hold one entry per player, and the transition check sees
/// the same room as after the second answer alone.
pub proof fn lemma_answer_overwrites(g: GameView, id: PlayerId, first: Answer, second: Answer, now: i64)
    requires
        g.game_state is Playing,
        g.game_state->playing_state is Question,
    ensures
        with_answer(with_answer(g, id, first), id, second) == with_answer(g, id, second),
        with_answer(with_answer(g, id, first), id, second).game_state->playing_state->Question_answers.dom()
            == g.game_state->playing_state->Question_answers.dom().insert(id),
        playing_step(with_answer(with_answer(g, id, first), id, second), now) == playing_step(
            with_answer(g, id, second),
            now,
        ),
        reveal_solution(with_answer(with_answer(g, id, first), id, second), now) == reveal_solution(
            with_answer(g, id, second),
            now,
        ),
{
    let answers = g.game_state->playing_state->Question_answers;
    assert(answers.insert(id, first).insert(id, second) =~= answers.insert(id, second));
    assert(answers.insert(id, second).dom() =~= answers.dom().insert(id));
}

/// The transition check and the scoring see the answers only as a map: two
/// rooms in the Question phase that agree on the settings, participants,
/// earlier questions, current question, deadline and answer map, however
/// those answers were given, are the same room, so the check and the
/// scoring treat them alike.
pub proof fn lemma_check_depends_on_answer_map(g1: GameView, g2: GameView, now: i64)
    requires
        g1.game_state is Playing,
        g1.game_state->playing_state is Question,
        g2.game_state is Playing,
        g2.game_state->playing_state is Question,
        g1.configuration == g2.configuration,
        g1.players == g2.players,
        g1.game_state->previous_questions == g2.game_state->previous_questions,
        g1.game_state->current_question == g2.game_state->current_question,
        g1.game_state->playing_state->Question_time_until
            == g2.game_state->playing_state->Question_time_until,
        g1.game_state->playing_state->Question_answers
            == g2.game_state->playing_state->Question_answers,
    ensures
        g1 == g2,
        playing_step(g1, now) == playing_step(g2, now),
        reveal_solution(g1, now) == reveal_solution(g2, now),
{
    assert(g1.game_state->playing_state == g2.game_state->playing_state);
    assert(g1.game_state == g2.game_state);
}

/// Codes issued one after another while no room ends are pairwise
/// distinct: each issued code is missing from the live codes at its turn
/// (the guarantee of `InviteCodes::create`), and the live codes grow by
/// exactly that code.
pub proof fn lemma_successive_codes_distinct(live: Seq<Seq<char>>, codes: Seq<Seq<char>>)
    requires
        forall|i: int| 0 <= i < codes.len() ==> !(live + codes.subrange(0, i)).contains(#[trigger] codes[i]),
    ensures
        codes.no_duplicates(),
{
    assert forall|a: int, b: int| 0 <= a < codes.len() && 0 <= b < codes.len() && a != b implies codes[a] != codes[b] by {
        let (x, y) = if a < b { (a, b) } else { (b, a) };
        let before = live + codes.subrange(0, y);
        assert(before[live.len() + x] == codes[x]);
        if codes[x] == codes[y] {
            assert(before.contains(codes[y]));
        }
    }
}

} // verus!
