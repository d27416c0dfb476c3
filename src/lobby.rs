//! The room actor's transition logic: each event that reaches a room's
//! mailbox is applied here, in one step, and answered with the messages that
//! the room sends out.

use vstd::prelude::*;

use crate::model::{
    ids_unique, players_view, previous_view, Answer, AnsweredQuestion, Game, GameState,
    GameStateView, GameView, PlayType, Player, PlayerId, PlayerName, PlayerView, PlayingState,
    PlayingStateView, QuestionId,
};
use crate::question_bank::{
    any_eligible, drawable, get_random_answered_question, GetRandomQuestionIdError, QuestionBank,
    QuestionEntry,
};
use crate::rules::{
    advance_question, all_players_answered, all_players_requested, count_of_player_type_player,
    count_players_requesting, create_new_game_state_playing, create_new_playing_state_question,
    current_question_of, deadline_after_seconds, deadline_passed, excluded_after, finish_round,
    new_round, playing_step, playing_update_outcome, ranked_players_of, restart_round,
    reveal_solution, score_players, with_players, with_state, PlayingStep,
    SOLUTION_TIME_IN_SECONDS,
};
use crate::tables::PlayerIdSet;

verus! {

/// The transition that is due in `game` at `now`.
pub fn decide_playing_step(game: &Game, now: i64) -> (r: PlayingStep)
    requires
        game.wf(),
    ensures
        r == playing_step(game@, now),
{
    match &game.game_state {
        GameState::InLobby => PlayingStep::Stay,
        GameState::Aftermath { restart_requests, .. } => {
            let wanting = count_players_requesting(&game.players, restart_requests);
            let total = count_of_player_type_player(&game.players);
            proof {
                crate::rules::lemma_count_players_in_bound(game@.players, restart_requests@);
            }
            if wanting >= total - wanting {
                PlayingStep::Restart
            } else {
                PlayingStep::Stay
            }
        },
        GameState::Playing { previous_questions, playing_state, .. } => match playing_state {
            PlayingState::Question { time_until, answers } => {
                let total = count_of_player_type_player(&game.players);
                let passed = match time_until {
                    Some(t) => *t < now,
                    None => false,
                };
                if total == 0 || all_players_answered(&game.players, answers) || passed {
                    PlayingStep::RevealSolution
                } else {
                    PlayingStep::Stay
                }
            },
            PlayingState::Solution { time_until, skip_request, .. } => {
                if all_players_requested(&game.players, skip_request) || *time_until < now {
                    let stored = previous_questions.len() as u64;
                    assert(previous_view(previous_questions@).len() == previous_questions@.len());
                    if stored < game.configuration.count_of_questions
                        && stored + 1 < game.configuration.count_of_questions {
                        PlayingStep::NextQuestion
                    } else {
                        PlayingStep::FinishRound
                    }
                } else {
                    PlayingStep::Stay
                }
            },
        },
    }
}

proof fn lemma_same_ids_unique(a: Seq<PlayerView>, b: Seq<PlayerView>)
    requires
        ids_unique(a),
        a.len() == b.len(),
        forall|i: int| 0 <= i < a.len() ==> (#[trigger] a[i]).id == b[i].id,
    ensures
        ids_unique(b),
{
    assert forall|i: int, j: int| 0 <= i < j < b.len() implies #[trigger] b[i].id != #[trigger] b[j].id by {
        assert(a[i].id == b[i].id);
        assert(a[j].id == b[j].id);
    }
}

/// Question to Solution.
fn reveal_solution_now(game: &mut Game, now: i64)
    requires
        old(game).wf(),
        playing_step(old(game)@, now) == PlayingStep::RevealSolution,
    ensures
        final(game).wf(),
        final(game)@ == reveal_solution(old(game)@, now),
{
    let mut state = GameState::InLobby;
    std::mem::swap(&mut state, &mut game.game_state);
    match state {
        GameState::Playing { previous_questions, current_question, playing_state } => {
            match playing_state {
                PlayingState::Question { time_until, answers } => {
                    score_players(&mut game.players, &answers, current_question.answer);
                    let skip_request = PlayerIdSet::new();
                    game.game_state = GameState::Playing {
                        previous_questions,
                        current_question,
                        playing_state: PlayingState::Solution {
                            time_until: deadline_after_seconds(now, SOLUTION_TIME_IN_SECONDS),
                            answers,
                            skip_request,
                        },
                    };
                    proof {
                        lemma_same_ids_unique(old(game)@.players, game@.players);
                    }
                    assert(game@ == reveal_solution(old(game)@, now));
                },
                PlayingState::Solution { .. } => {
                    assert(false);
                },
            }
        },
        _ => {
            assert(false);
        },
    }
}

/// The ids of the questions of the round so far, the current one included.
fn stored_question_ids(game: &Game) -> (r: Vec<QuestionId>)
    requires
        game.game_state is Playing,
    ensures
        r@ == excluded_after(game@),
{
    match &game.game_state {
        GameState::Playing { previous_questions, current_question, .. } => {
            let ghost target = excluded_after(game@);
            let mut r: Vec<QuestionId> = Vec::new();
            let mut i: usize = 0;
            while i < previous_questions.len()
                invariant
                    i <= previous_questions.len(),
                    target == excluded_after(game@),
                    game.game_state == (GameState::Playing {
                        previous_questions: *previous_questions,
                        current_question: *current_question,
                        playing_state: game.game_state->playing_state,
                    }),
                    r@.len() == i,
                    forall|k: int| 0 <= k < i ==> #[trigger] r@[k] == target[k],
                decreases previous_questions.len() - i,
            {
                r.push(previous_questions[i].0.question_id);
                i = i + 1;
            }
            r.push(current_question.question_id);
            assert(r@ =~= target);
            r
        },
        _ => {
            assert(false);
            Vec::new()
        },
    }
}

/// Solution to the next Question `q`.
fn advance_question_now(game: &mut Game, now: i64, q: AnsweredQuestion)
    requires
        old(game).wf(),
        playing_step(old(game)@, now) == PlayingStep::NextQuestion,
    ensures
        final(game).wf(),
        final(game)@ == advance_question(old(game)@, now, q),
{
    let mut state = GameState::InLobby;
    std::mem::swap(&mut state, &mut game.game_state);
    match state {
        GameState::Playing { mut previous_questions, current_question, playing_state } => {
            match playing_state {
                PlayingState::Solution { answers, .. } => {
                    let ghost before = previous_questions@;
                    previous_questions.push((current_question, answers));
                    assert(previous_view(previous_questions@) =~= previous_view(before).push(
                        (current_question, answers@),
                    ));
                    let playing_state = create_new_playing_state_question(
                        &game.configuration,
                        now,
                    );
                    game.game_state = GameState::Playing {
                        previous_questions,
                        current_question: q,
                        playing_state,
                    };
                    assert(game@ == advance_question(old(game)@, now, q));
                },
                PlayingState::Question { .. } => {
                    assert(false);
                },
            }
        },
        _ => {
            assert(false);
        },
    }
}

/// Solution to Aftermath.
fn finish_round_now(game: &mut Game)
    requires
        old(game).wf(),
    ensures
        final(game).wf(),
        final(game)@ == finish_round(old(game)@),
{
    let ranked_players = ranked_players_of(&game.players);
    game.game_state = GameState::Aftermath { ranked_players, restart_requests: PlayerIdSet::new() };
    assert(game@ == finish_round(old(game)@));
}

/// Runs the transition check: moves the round on if the answers are in, the
/// players want to go on, a deadline has passed, or enough players want to
/// play again. `Ok(true)` when the state changed; an error when a new question
/// was due and the bank has none left.
pub fn process_playing_update(game: &mut Game, now: i64, bank: &QuestionBank) -> (r: Result<
    bool,
    GetRandomQuestionIdError,
>)
    requires
        old(game).wf(),
        bank.wf(),
    ensures
        final(game).wf(),
        playing_update_outcome(old(game)@, now, bank@, final(game)@, r),
        final(game)@.game_state is Playing && final(game)@.configuration.count_of_questions >= 1
            ==> final(game)@.game_state->previous_questions.len()
            < final(game)@.configuration.count_of_questions,
{
    let step = decide_playing_step(game, now);
    match step {
        PlayingStep::Stay => Ok(false),
        PlayingStep::RevealSolution => {
            reveal_solution_now(game, now);
            Ok(true)
        },
        PlayingStep::FinishRound => {
            finish_round_now(game);
            Ok(true)
        },
        PlayingStep::NextQuestion => {
            let excluded = stored_question_ids(game);
            match get_random_answered_question(
                bank,
                game.configuration.minimum_score_per_question,
                &excluded,
            ) {
                Ok(q) => {
                    advance_question_now(game, now, q);
                    Ok(true)
                },
                Err(e) => Err(e),
            }
        },
        PlayingStep::Restart => {
            let excluded: Vec<QuestionId> = Vec::new();
            match get_random_answered_question(
                bank,
                game.configuration.minimum_score_per_question,
                &excluded,
            ) {
                Ok(q) => {
                    game.game_state = create_new_game_state_playing(&game.configuration, now, q);
                    assert(game@ == restart_round(old(game)@, now, q));
                    Ok(true)
                },
                Err(e) => Err(e),
            }
        },
    }
}

/* EVENTS */

/// Whether a registration comes from the room's creator or from a joiner;
/// it only selects the acknowledgement.
#[derive(Clone, Copy, PartialEq, Eq, Structural, Debug, Hash)]
pub enum RegisterType {
    Creator,
    Joiner,
}

/// The kind of connection that a player opened.
#[derive(Clone, Copy, PartialEq, Eq, Structural, Debug, Hash)]
pub enum ClientType {
    LobbyCreator,
    LobbyJoiner,
}

impl ClientType {
    pub fn into_register_type(self) -> (r: RegisterType)
        ensures
            r == (match self {
                ClientType::LobbyCreator => RegisterType::Creator,
                ClientType::LobbyJoiner => RegisterType::Joiner,
            }),
    {
        match self {
            ClientType::LobbyCreator => RegisterType::Creator,
            ClientType::LobbyJoiner => RegisterType::Joiner,
        }
    }
}

/// What a client sends over its connection.
#[derive(Clone, PartialEq, Eq, Debug)]
pub enum ClientMessage {
    CreateLobby {
        player_name: String,
        just_watch: bool,
        count_of_questions: Option<u64>,
        minimum_score_per_question: Option<i64>,
        maximum_answer_time_per_question: Option<u64>,
    },
    JoinLobby { player_name: String, invite_code: String, just_watch: bool },
    RequestFullUpdate,
    StartGame,
    ChooseAnswer(Answer),
    RequestSkip,
    RequestPlayAgain,
}

/// An event in a room's mailbox.
#[derive(Clone, PartialEq, Eq, Debug)]
pub enum ToLobbyMessage {
    Register {
        player_id: PlayerId,
        name: PlayerName,
        just_watch: bool,
        register_type: RegisterType,
    },
    Disconnect { player_id: PlayerId },
    /// The periodic wake-up that lets deadlines take effect.
    IntervalUpdate,
    ClientMessage { player_id: PlayerId, client_message: ClientMessage },
}

/// What a room tells a player. The three snapshot kinds carry the room's
/// state as it is after the event.
#[derive(Clone, Copy, PartialEq, Eq, Structural, Debug, Hash)]
pub enum FromLobbyMessage {
    LobbyCreated,
    LobbyJoined,
    GameFullUpdate,
    AnswerNotInTimeLimit,
    PlayerNameAlreadyInUse,
}

/// One outgoing message and its addressees.
#[derive(Clone, Copy, PartialEq, Eq, Structural, Debug, Hash)]
pub enum Delivery {
    ToPlayer { player_id: PlayerId, message: FromLobbyMessage },
    ToEveryone { message: FromLobbyMessage },
}

/// A room's answer to one event: the messages to send, in order, and whether
/// the room is now empty and ends.
#[derive(Clone, PartialEq, Eq, Debug)]
pub struct LobbyReaction {
    pub deliveries: Vec<Delivery>,
    pub exit: bool,
}

/* EVENTS ON THE MODEL */

pub open spec fn reacted(
    r: Result<LobbyReaction, GetRandomQuestionIdError>,
    deliveries: Seq<Delivery>,
    exit: bool,
) -> bool {
    match r {
        Ok(x) => x.deliveries@ == deliveries && x.exit == exit,
        Err(_) => false,
    }
}

pub open spec fn broadcast_update() -> Delivery {
    Delivery::ToEveryone { message: FromLobbyMessage::GameFullUpdate }
}

/// The outcome of an event that runs the transition check on `g`: a
/// snapshot goes to everyone when the state changed, and also when
/// `always_broadcast` holds.
pub open spec fn checked_outcome(
    g: GameView,
    now: i64,
    bank: Seq<QuestionEntry>,
    h: GameView,
    r: Result<LobbyReaction, GetRandomQuestionIdError>,
    always_broadcast: bool,
) -> bool {
    match r {
        Ok(x) => {
            &&& !x.exit
            &&& {
                ||| playing_update_outcome(g, now, bank, h, Ok(true)) && x.deliveries@ == seq![
                    broadcast_update(),
                ]
                ||| playing_update_outcome(g, now, bank, h, Ok(false)) && x.deliveries@ == (
                if always_broadcast {
                    seq![broadcast_update()]
                } else {
                    Seq::<Delivery>::empty()
                })
            }
        },
        Err(e) => playing_update_outcome(g, now, bank, h, Err(e)),
    }
}

pub open spec fn name_in_use(ps: Seq<PlayerView>, name: Seq<char>) -> bool {
    exists|i: int| 0 <= i < ps.len() && (#[trigger] ps[i]).name == name
}

pub open spec fn has_player(ps: Seq<PlayerView>, id: PlayerId) -> bool {
    exists|i: int| 0 <= i < ps.len() && (#[trigger] ps[i]).id == id
}

/// The participants without the one with `id`.
pub open spec fn without_player(ps: Seq<PlayerView>, id: PlayerId) -> Seq<PlayerView> {
    if has_player(ps, id) {
        ps.remove(choose|i: int| 0 <= i < ps.len() && (#[trigger] ps[i]).id == id)
    } else {
        ps
    }
}

pub open spec fn new_player(id: PlayerId, name: Seq<char>, just_watch: bool) -> PlayerView {
    PlayerView {
        id,
        name,
        play_type: if just_watch {
            PlayType::Watcher
        } else {
            PlayType::Player { points: 0 }
        },
    }
}

/// The room after a registration that was accepted: an earlier entry of the
/// same connection is replaced by a fresh one at the end.
pub open spec fn registered(g: GameView, id: PlayerId, name: Seq<char>, just_watch: bool) -> GameView {
    with_players(g, without_player(g.players, id).push(new_player(id, name, just_watch)))
}

pub open spec fn with_answer(g: GameView, id: PlayerId, a: Answer) -> GameView {
    match g.game_state {
        GameStateView::Playing {
            previous_questions,
            current_question,
            playing_state: PlayingStateView::Question { time_until, answers },
        } => with_state(
            g,
            GameStateView::Playing {
                previous_questions,
                current_question,
                playing_state: PlayingStateView::Question {
                    time_until,
                    answers: answers.insert(id, a),
                },
            },
        ),
        _ => g,
    }
}

pub open spec fn with_skip_request(g: GameView, id: PlayerId) -> GameView {
    match g.game_state {
        GameStateView::Playing {
            previous_questions,
            current_question,
            playing_state: PlayingStateView::Solution { time_until, answers, skip_request },
        } => with_state(
            g,
            GameStateView::Playing {
                previous_questions,
                current_question,
                playing_state: PlayingStateView::Solution {
                    time_until,
                    answers,
                    skip_request: skip_request.insert(id),
                },
            },
        ),
        _ => g,
    }
}

pub open spec fn with_restart_request(g: GameView, id: PlayerId) -> GameView {
    match g.game_state {
        GameStateView::Aftermath { ranked_players, restart_requests } => with_state(
            g,
            GameStateView::Aftermath { ranked_players, restart_requests: restart_requests.insert(id) },
        ),
        _ => g,
    }
}

/// Whether the room is in the Question phase.
pub open spec fn in_question(g: GameView) -> bool {
    g.game_state is Playing && g.game_state->playing_state is Question
}

pub open spec fn in_solution(g: GameView) -> bool {
    g.game_state is Playing && g.game_state->playing_state is Solution
}

/// What processing `message` at `now` does to a room `g`: `h` is the room
/// afterwards and `r` the reaction.
pub open spec fn lobby_outcome(
    g: GameView,
    message: ToLobbyMessage,
    now: i64,
    bank: Seq<QuestionEntry>,
    h: GameView,
    r: Result<LobbyReaction, GetRandomQuestionIdError>,
) -> bool {
    let minimum = g.configuration.minimum_score_per_question;
    match message {
        ToLobbyMessage::Register { player_id, name, just_watch, register_type } => if name_in_use(
            g.players,
            name@,
        ) {
            h == g && reacted(
                r,
                seq![
                    Delivery::ToPlayer {
                        player_id,
                        message: FromLobbyMessage::PlayerNameAlreadyInUse,
                    },
                ],
                false,
            )
        } else {
            h == registered(g, player_id, name@, just_watch) && reacted(
                r,
                seq![
                    Delivery::ToPlayer {
                        player_id,
                        message: match register_type {
                            RegisterType::Creator => FromLobbyMessage::LobbyCreated,
                            RegisterType::Joiner => FromLobbyMessage::LobbyJoined,
                        },
                    },
                    broadcast_update(),
                ],
                false,
            )
        },
        ToLobbyMessage::Disconnect { player_id } => {
            let left = with_players(g, without_player(g.players, player_id));
            if left.players.len() == 0 {
                h == left && reacted(r, Seq::empty(), true)
            } else {
                checked_outcome(left, now, bank, h, r, true)
            }
        },
        ToLobbyMessage::IntervalUpdate => if g.game_state is Playing {
            checked_outcome(g, now, bank, h, r, false)
        } else {
            h == g && reacted(r, Seq::empty(), false)
        },
        ToLobbyMessage::ClientMessage { player_id, client_message } => match client_message {
            ClientMessage::RequestFullUpdate => h == g && reacted(
                r,
                seq![Delivery::ToPlayer { player_id, message: FromLobbyMessage::GameFullUpdate }],
                false,
            ),
            ClientMessage::StartGame => if g.game_state is InLobby {
                match r {
                    Ok(x) => {
                        &&& reacted(r, seq![broadcast_update()], false)
                        &&& h == with_state(
                            g,
                            new_round(g.configuration, now, current_question_of(h.game_state)),
                        )
                        &&& drawable(bank, current_question_of(h.game_state), minimum, Seq::empty())
                    },
                    Err(_) => h == g && !any_eligible(bank, minimum, Seq::empty()),
                }
            } else {
                h == g && reacted(r, Seq::empty(), false)
            },
            ClientMessage::ChooseAnswer(answer) => if in_question(g) {
                if deadline_passed(g.game_state->playing_state->Question_time_until, now) {
                    h == g && reacted(
                        r,
                        seq![
                            Delivery::ToPlayer {
                                player_id,
                                message: FromLobbyMessage::AnswerNotInTimeLimit,
                            },
                        ],
                        false,
                    )
                } else {
                    checked_outcome(with_answer(g, player_id, answer), now, bank, h, r, true)
                }
            } else {
                h == g && reacted(r, Seq::empty(), false)
            },
            ClientMessage::RequestSkip => if in_solution(g) {
                checked_outcome(with_skip_request(g, player_id), now, bank, h, r, true)
            } else {
                h == g && reacted(r, Seq::empty(), false)
            },
            ClientMessage::RequestPlayAgain => if g.game_state is Aftermath {
                checked_outcome(with_restart_request(g, player_id), now, bank, h, r, true)
            } else {
                h == g && reacted(r, Seq::empty(), false)
            },
            _ => h == g && reacted(r, Seq::empty(), false),
        },
    }
}

/* APPLYING EVENTS */

proof fn lemma_remove_keeps_ids_unique(ps: Seq<PlayerView>, i: int)
    requires
        ids_unique(ps),
        0 <= i < ps.len(),
    ensures
        ids_unique(ps.remove(i)),
        !has_player(ps.remove(i), ps[i].id),
{
    let t = ps.remove(i);
    assert forall|a: int, b: int| 0 <= a < b < t.len() implies #[trigger] t[a].id != #[trigger] t[b].id by {
        let a0 = if a < i { a } else { a + 1 };
        let b0 = if b < i { b } else { b + 1 };
        assert(t[a] == ps[a0]);
        assert(t[b] == ps[b0]);
    }
    if has_player(t, ps[i].id) {
        let k = choose|k: int| 0 <= k < t.len() && (#[trigger] t[k]).id == ps[i].id;
        let k0 = if k < i { k } else { k + 1 };
        assert(t[k] == ps[k0]);
    }
}

/// The position of the participant with `id`.
fn find_player(players: &Vec<Player>, id: PlayerId) -> (r: Option<usize>)
    ensures
        match r {
            Some(i) => i < players@.len() && players@[i as int].id == id,
            None => !has_player(players_view(players@), id),
        },
{
    let ghost pv = players_view(players@);
    let mut i: usize = 0;
    while i < players.len()
        invariant
            i <= players.len(),
            pv == players_view(players@),
            forall|k: int| 0 <= k < i ==> (#[trigger] pv[k]).id != id,
        decreases players.len() - i,
    {
        if players[i].id == id {
            return Some(i);
        }
        i = i + 1;
    }
    None
}

/// Whether a participant already has this name.
fn name_taken(players: &Vec<Player>, name: &PlayerName) -> (r: bool)
    ensures
        r == name_in_use(players_view(players@), name@),
{
    let ghost pv = players_view(players@);
    let mut i: usize = 0;
    while i < players.len()
        invariant
            i <= players.len(),
            pv == players_view(players@),
            forall|k: int| 0 <= k < i ==> (#[trigger] pv[k]).name != name@,
        decreases players.len() - i,
    {
        if players[i].name.same_as(name) {
            assert(pv[i as int].name == name@);
            return true;
        }
        i = i + 1;
    }
    false
}

/// Removes the participant with `id`, if there is one.
fn remove_player(game: &mut Game, id: PlayerId)
    requires
        old(game).wf(),
    ensures
        final(game).wf(),
        final(game)@ == with_players(old(game)@, without_player(old(game)@.players, id)),
        !has_player(final(game)@.players, id),
{
    let ghost pv = old(game)@.players;
    match find_player(&game.players, id) {
        Some(i) => {
            proof {
                let c = choose|c: int| 0 <= c < pv.len() && (#[trigger] pv[c]).id == id;
                assert(pv[i as int].id == id);
                assert(c == i);
                lemma_remove_keeps_ids_unique(pv, i as int);
            }
            let _ = game.players.remove(i);
            assert(players_view(game.players@) =~= pv.remove(i as int));
        },
        None => {},
    }
}

/// Adds a participant in place of an earlier entry of the same connection.
fn register_player(game: &mut Game, player_id: PlayerId, name: PlayerName, just_watch: bool)
    requires
        old(game).wf(),
    ensures
        final(game).wf(),
        final(game)@ == registered(old(game)@, player_id, name@, just_watch),
{
    let ghost name_view = name@;
    remove_player(game, player_id);
    let ghost before = game@.players;
    let play_type = if just_watch {
        PlayType::Watcher
    } else {
        PlayType::Player { points: 0 }
    };
    game.players.push(Player { id: player_id, name, play_type });
    assert(game@.players =~= before.push(new_player(player_id, name_view, just_watch)));
    assert(ids_unique(game@.players)) by {
        assert forall|a: int, b: int| 0 <= a < b < game@.players.len() implies
            #[trigger] game@.players[a].id != #[trigger] game@.players[b].id by {
            if b == before.len() {
                assert(game@.players[a] == before[a]);
            } else {
                assert(game@.players[a] == before[a]);
                assert(game@.players[b] == before[b]);
            }
        }
    }
}

/// Runs the transition check and says whom to tell.
fn run_check(game: &mut Game, now: i64, bank: &QuestionBank, always_broadcast: bool) -> (r: Result<
    LobbyReaction,
    GetRandomQuestionIdError,
>)
    requires
        old(game).wf(),
        bank.wf(),
    ensures
        final(game).wf(),
        checked_outcome(old(game)@, now, bank@, final(game)@, r, always_broadcast),
{
    match process_playing_update(game, now, bank) {
        Ok(changed) => {
            if changed || always_broadcast {
                let deliveries = vec![Delivery::ToEveryone { message: FromLobbyMessage::GameFullUpdate }];
                assert(deliveries@ =~= seq![broadcast_update()]);
                Ok(LobbyReaction { deliveries, exit: false })
            } else {
                let deliveries: Vec<Delivery> = Vec::new();
                Ok(LobbyReaction { deliveries, exit: false })
            }
        },
        Err(e) => Err(e),
    }
}

fn record_answer(game: &mut Game, player_id: PlayerId, answer: Answer)
    requires
        old(game).wf(),
        in_question(old(game)@),
    ensures
        final(game).wf(),
        final(game)@ == with_answer(old(game)@, player_id, answer),
{
    match &mut game.game_state {
        GameState::Playing { playing_state: PlayingState::Question { answers, .. }, .. } => {
            answers.insert(player_id, answer);
        },
        _ => {},
    }
    assert(game@ == with_answer(old(game)@, player_id, answer));
}

fn record_skip_request(game: &mut Game, player_id: PlayerId)
    requires
        old(game).wf(),
        in_solution(old(game)@),
    ensures
        final(game).wf(),
        final(game)@ == with_skip_request(old(game)@, player_id),
{
    match &mut game.game_state {
        GameState::Playing { playing_state: PlayingState::Solution { skip_request, .. }, .. } => {
            skip_request.insert(player_id);
        },
        _ => {},
    }
    assert(game@ == with_skip_request(old(game)@, player_id));
}

fn record_restart_request(game: &mut Game, player_id: PlayerId)
    requires
        old(game).wf(),
        old(game)@.game_state is Aftermath,
    ensures
        final(game).wf(),
        final(game)@ == with_restart_request(old(game)@, player_id),
{
    match &mut game.game_state {
        GameState::Aftermath { restart_requests, .. } => {
            restart_requests.insert(player_id);
        },
        _ => {},
    }
    assert(game@ == with_restart_request(old(game)@, player_id));
}

fn reply(player_id: PlayerId, message: FromLobbyMessage) -> (r: Result<LobbyReaction, GetRandomQuestionIdError>)
    ensures
        reacted(r, seq![Delivery::ToPlayer { player_id, message }], false),
{
    let deliveries = vec![Delivery::ToPlayer { player_id, message }];
    assert(deliveries@ =~= seq![Delivery::ToPlayer { player_id, message }]);
    Ok(LobbyReaction { deliveries, exit: false })
}

fn ignore() -> (r: Result<LobbyReaction, GetRandomQuestionIdError>)
    ensures
        reacted(r, Seq::empty(), false),
{
    let deliveries: Vec<Delivery> = Vec::new();
    Ok(LobbyReaction { deliveries, exit: false })
}

/// Applies one event of the room's mailbox at time `now` (milliseconds since
/// the Unix epoch). An error means that a new question was due and the bank
/// has none left; the room is then unchanged.
pub fn process_client_message(
    game: &mut Game,
    to_lobby_message: ToLobbyMessage,
    now: i64,
    bank: &QuestionBank,
) -> (r: Result<LobbyReaction, GetRandomQuestionIdError>)
    requires
        old(game).wf(),
        bank.wf(),
    ensures
        final(game).wf(),
        lobby_outcome(old(game)@, to_lobby_message, now, bank@, final(game)@, r),
        final(game)@.game_state is Playing && final(game)@.configuration.count_of_questions >= 1
            ==> final(game)@.game_state->previous_questions.len()
            < final(game)@.configuration.count_of_questions,
{
    match to_lobby_message {
        ToLobbyMessage::Register { player_id, name, just_watch, register_type } => {
            if name_taken(&game.players, &name) {
                reply(player_id, FromLobbyMessage::PlayerNameAlreadyInUse)
            } else {
                register_player(game, player_id, name, just_watch);
                let acknowledgement = match register_type {
                    RegisterType::Creator => FromLobbyMessage::LobbyCreated,
                    RegisterType::Joiner => FromLobbyMessage::LobbyJoined,
                };
                let deliveries = vec![
                    Delivery::ToPlayer { player_id, message: acknowledgement },
                    Delivery::ToEveryone { message: FromLobbyMessage::GameFullUpdate },
                ];
                assert(deliveries@ =~= seq![
                    Delivery::ToPlayer { player_id, message: acknowledgement },
                    broadcast_update(),
                ]);
                Ok(LobbyReaction { deliveries, exit: false })
            }
        },
        ToLobbyMessage::Disconnect { player_id } => {
            remove_player(game, player_id);
            if game.players.len() == 0 {
                let deliveries: Vec<Delivery> = Vec::new();
                Ok(LobbyReaction { deliveries, exit: true })
            } else {
                run_check(game, now, bank, true)
            }
        },
        ToLobbyMessage::IntervalUpdate => {
            if game.game_state.is_playing() {
                run_check(game, now, bank, false)
            } else {
                ignore()
            }
        },
        ToLobbyMessage::ClientMessage { player_id, client_message } => match client_message {
            ClientMessage::RequestFullUpdate => reply(player_id, FromLobbyMessage::GameFullUpdate),
            ClientMessage::StartGame => {
                if game.game_state.is_in_lobby() {
                    let excluded: Vec<QuestionId> = Vec::new();
                    match get_random_answered_question(
                        bank,
                        game.configuration.minimum_score_per_question,
                        &excluded,
                    ) {
                        Ok(q) => {
                            game.game_state = create_new_game_state_playing(
                                &game.configuration,
                                now,
                                q,
                            );
                            let deliveries = vec![
                                Delivery::ToEveryone { message: FromLobbyMessage::GameFullUpdate },
                            ];
                            assert(deliveries@ =~= seq![broadcast_update()]);
                            Ok(LobbyReaction { deliveries, exit: false })
                        },
                        Err(e) => Err(e),
                    }
                } else {
                    ignore()
                }
            },
            ClientMessage::ChooseAnswer(answer) => {
                match game.game_state.question_deadline_passed(now) {
                    Some(true) => reply(player_id, FromLobbyMessage::AnswerNotInTimeLimit),
                    Some(false) => {
                        record_answer(game, player_id, answer);
                        run_check(game, now, bank, true)
                    },
                    None => ignore(),
                }
            },
            ClientMessage::RequestSkip => {
                if game.game_state.is_solution() {
                    record_skip_request(game, player_id);
                    run_check(game, now, bank, true)
                } else {
                    ignore()
                }
            },
            ClientMessage::RequestPlayAgain => {
                if game.game_state.is_aftermath() {
                    record_restart_request(game, player_id);
                    run_check(game, now, bank, true)
                } else {
                    ignore()
                }
            },
            ClientMessage::CreateLobby { .. } | ClientMessage::JoinLobby { .. } => ignore(),
        },
    }
}

/// Relies on `chrono::Utc::now` and `DateTime::timestamp_millis`: the current
/// time in milliseconds since the Unix epoch; nothing more is promised.
#[verifier::external_body]
fn current_time_millis() -> (r: i64) {
    chrono::Utc::now().timestamp_millis()
}

/// Applies one event of the room's mailbox at the current time.
pub fn process_client_message_now(
    game: &mut Game,
    to_lobby_message: ToLobbyMessage,
    bank: &QuestionBank,
) -> (r: Result<LobbyReaction, GetRandomQuestionIdError>)
    requires
        old(game).wf(),
        bank.wf(),
    ensures
        final(game).wf(),
        exists|now: i64| lobby_outcome(old(game)@, to_lobby_message, now, bank@, final(game)@, r),
{
    let now = current_time_millis();
    process_client_message(game, to_lobby_message, now, bank)
}

impl GameState {
    pub fn is_in_lobby(&self) -> (r: bool)
        ensures
            r == (self@ is InLobby),
    {
        match self {
            GameState::InLobby => true,
            _ => false,
        }
    }

    pub fn is_playing(&self) -> (r: bool)
        ensures
            r == (self@ is Playing),
    {
        match self {
            GameState::Playing { .. } => true,
            _ => false,
        }
    }

    pub fn is_solution(&self) -> (r: bool)
        ensures
            r == (self@ is Playing && self@->playing_state is Solution),
    {
        match self {
            GameState::Playing { playing_state: PlayingState::Solution { .. }, .. } => true,
            _ => false,
        }
    }

    pub fn is_aftermath(&self) -> (r: bool)
        ensures
            r == (self@ is Aftermath),
    {
        match self {
            GameState::Aftermath { .. } => true,
            _ => false,
        }
    }

    /// In the Question phase: whether its deadline has passed at `now`;
    /// `None` in every other phase.
    pub fn question_deadline_passed(&self, now: i64) -> (r: Option<bool>)
        ensures
            match r {
                Some(passed) => self@ is Playing && self@->playing_state is Question && passed
                    == deadline_passed(self@->playing_state->Question_time_until, now),
                None => !(self@ is Playing && self@->playing_state is Question),
            },
    {
        match self {
            GameState::Playing { playing_state: PlayingState::Question { time_until, .. }, .. } =>
                match time_until {
                Some(t) => Some(*t < now),
                None => Some(false),
            },
            _ => None,
        }
    }
}

} // verus!
