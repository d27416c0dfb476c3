//! What a room sends over the wire: complete snapshots of the room as one
//! player may see it, and the error signals.

use vstd::prelude::*;

use crate::lobby::FromLobbyMessage;
use crate::model::{
    players_view, ranked_view, Answer, Game, GameConfiguration, GameState, GameStateView,
    GameView, InviteCode, Player, PlayerId, PlayingState, PlayingStateView, RankedPlayer,
};
use crate::question_bank::{get, QuestionBank, QuestionEntry};
use crate::tables::{entries_map, lemma_entries_map_dom, PlayerAnswers, PlayerIdSet};

verus! {

/// A question as the players see it before the solution.
#[derive(Clone, PartialEq, Eq, Debug)]
pub struct Question {
    pub title: String,
}

/// A question with its solution and its source.
#[derive(Clone, PartialEq, Eq, Debug)]
pub struct SolvedQuestion {
    pub question: Question,
    pub url: String,
    pub preview_image_url: Option<String>,
    pub answer: Answer,
}

/// The phase of the current question as one player sees it: while answers
/// are collected, only who has answered is visible, and one's own answer.
#[derive(Clone, PartialEq, Eq, Debug)]
pub enum SnapshotPlayingState {
    Question {
        current_question: Question,
        time_until: Option<i64>,
        answers: Vec<PlayerId>,
        own_answer: Option<Answer>,
    },
    Solution {
        current_question: SolvedQuestion,
        time_until: i64,
        answers: Vec<(PlayerId, Answer)>,
        skip_request: Vec<PlayerId>,
    },
}

#[derive(Clone, PartialEq, Eq, Debug)]
pub enum SnapshotGameState {
    InLobby,
    Playing { index_of_current_question: usize, playing_state: SnapshotPlayingState },
    Aftermath { ranked_players: Vec<RankedPlayer>, restart_requests: Vec<PlayerId> },
}

/// A complete picture of a room for the player `this_player_id`.
#[derive(Clone, PartialEq, Eq, Debug)]
pub struct GameSnapshot {
    pub invite_code: InviteCode,
    pub configuration: GameConfiguration,
    pub game_state: SnapshotGameState,
    pub players: Vec<Player>,
    pub this_player_id: PlayerId,
}

/// A message from the server to one client.
#[derive(Clone, PartialEq, Eq, Debug)]
pub enum ServerMessage {
    LobbyCreated(GameSnapshot),
    LobbyJoined(GameSnapshot),
    GameFullUpdate(GameSnapshot),
    AnswerNotInTimeLimit,
    PlayerNameAlreadyInUse,
}

pub open spec fn ids_set(s: Seq<PlayerId>) -> Set<PlayerId> {
    Set::new(|id: PlayerId| s.contains(id))
}

/// Whether `s` shows the playing state `p` of the current question, whose
/// label is `truth` and whose bank entry is `entry`, to the player `own_id`.
pub open spec fn shows_playing_state(
    s: SnapshotPlayingState,
    p: PlayingStateView,
    truth: Answer,
    entry: QuestionEntry,
    own_id: PlayerId,
) -> bool {
    match (s, p) {
        (
            SnapshotPlayingState::Question { current_question, time_until, answers, own_answer },
            PlayingStateView::Question { time_until: t, answers: given },
        ) => {
            &&& current_question.title@ == entry.data.title@
            &&& time_until == t
            &&& ids_set(answers@) == given.dom()
            &&& own_answer == if given.contains_key(own_id) {
                Some(given[own_id])
            } else {
                None::<Answer>
            }
        },
        (
            SnapshotPlayingState::Solution { current_question, time_until, answers, skip_request },
            PlayingStateView::Solution { time_until: t, answers: given, skip_request: skips },
        ) => {
            &&& current_question.question.title@ == entry.data.title@
            &&& current_question.url@ == entry.data.url@
            &&& (current_question.preview_image_url is Some) == (entry.data.preview_image_url is Some)
            &&& (current_question.preview_image_url is Some ==> current_question.preview_image_url->0@
                == entry.data.preview_image_url->0@)
            &&& current_question.answer == truth
            &&& time_until == t
            &&& entries_map(answers@) == given
            &&& ids_set(skip_request@) == skips
        },
        _ => false,
    }
}

/// Whether `s` shows the room `g`, whose code is `code`, to `own_id`; the
/// current question's title and source come from the bank's first entry
/// with its id.
pub open spec fn shows_game(
    s: GameSnapshot,
    g: GameView,
    code: Seq<char>,
    own_id: PlayerId,
    bank: Seq<QuestionEntry>,
) -> bool {
    &&& s.invite_code@ == code
    &&& s.configuration == g.configuration
    &&& players_view(s.players@) == g.players
    &&& s.this_player_id == own_id
    &&& match (s.game_state, g.game_state) {
        (SnapshotGameState::InLobby, GameStateView::InLobby) => true,
        (
            SnapshotGameState::Playing { index_of_current_question, playing_state },
            GameStateView::Playing { previous_questions, current_question, playing_state: p },
        ) => {
            &&& index_of_current_question == previous_questions.len()
            &&& exists|i: int|
                0 <= i < bank.len() && (#[trigger] bank[i]).id == current_question.question_id
                    && shows_playing_state(
                    playing_state,
                    p,
                    current_question.answer,
                    bank[i],
                    own_id,
                )
        },
        (
            SnapshotGameState::Aftermath { ranked_players, restart_requests },
            GameStateView::Aftermath { ranked_players: ranked, restart_requests: requests },
        ) => ranked_view(ranked_players@) == ranked && ids_set(restart_requests@) == requests,
        _ => false,
    }
}

fn copy_players(players: &Vec<Player>) -> (r: Vec<Player>)
    ensures
        players_view(r@) == players_view(players@),
{
    let mut r: Vec<Player> = Vec::new();
    let mut i: usize = 0;
    while i < players.len()
        invariant
            i <= players.len(),
            players_view(r@) == players_view(players@).subrange(0, i as int),
        decreases players.len() - i,
    {
        let p = Player {
            id: players[i].id,
            name: players[i].name.duplicate(),
            play_type: players[i].play_type,
        };
        let ghost before = r@;
        r.push(p);
        assert(players_view(r@) =~= players_view(before).push(p@));
        assert(players_view(r@) =~= players_view(players@).subrange(0, i + 1));
        i = i + 1;
    }
    assert(players_view(players@).subrange(0, i as int) =~= players_view(players@));
    r
}

fn copy_ranked(ranked: &Vec<RankedPlayer>) -> (r: Vec<RankedPlayer>)
    ensures
        ranked_view(r@) == ranked_view(ranked@),
{
    let mut r: Vec<RankedPlayer> = Vec::new();
    let mut i: usize = 0;
    while i < ranked.len()
        invariant
            i <= ranked.len(),
            ranked_view(r@) == ranked_view(ranked@).subrange(0, i as int),
        decreases ranked.len() - i,
    {
        let e = (ranked[i].0, ranked[i].1.duplicate(), ranked[i].2);
        let ghost before = r@;
        r.push(e);
        assert(ranked_view(r@) =~= ranked_view(before).push((e.0, e.1@, e.2)));
        assert(ranked_view(r@) =~= ranked_view(ranked@).subrange(0, i + 1));
        i = i + 1;
    }
    assert(ranked_view(ranked@).subrange(0, i as int) =~= ranked_view(ranked@));
    r
}

fn copy_ids(ids: &PlayerIdSet) -> (r: Vec<PlayerId>)
    ensures
        ids_set(r@) == ids@,
{
    let v = ids.to_ids();
    let mut r: Vec<PlayerId> = Vec::new();
    let mut i: usize = 0;
    while i < v.len()
        invariant
            i <= v.len(),
            r@ == v@.subrange(0, i as int),
        decreases v.len() - i,
    {
        r.push(v[i]);
        i = i + 1;
    }
    assert(r@ =~= v@);
    assert(ids_set(r@) =~= ids@);
    r
}

fn copy_answer_ids(answers: &PlayerAnswers) -> (r: Vec<PlayerId>)
    requires
    ensures
        ids_set(r@) == answers@.dom(),
{
    let v = answers.to_entries();
    let mut r: Vec<PlayerId> = Vec::new();
    let mut i: usize = 0;
    while i < v.len()
        invariant
            i <= v.len(),
            r@.len() == i,
            forall|k: int| 0 <= k < i ==> #[trigger] r@[k] == v@[k].0,
        decreases v.len() - i,
    {
        r.push(v[i].0);
        i = i + 1;
    }
    proof {
        assert forall|id: PlayerId| ids_set(r@).contains(id) == answers@.dom().contains(id) by {
            lemma_entries_map_dom(v@, id);
            if r@.contains(id) {
                let k = choose|k: int| 0 <= k < r@.len() && r@[k] == id;
                assert(v@[k].0 == id);
            }
            if exists|k: int| 0 <= k < v@.len() && #[trigger] v@[k].0 == id {
                let k = choose|k: int| 0 <= k < v@.len() && #[trigger] v@[k].0 == id;
                assert(r@[k] == id);
            }
        }
        assert(ids_set(r@) =~= answers@.dom());
    }
    r
}

fn copy_answers(answers: &PlayerAnswers) -> (r: Vec<(PlayerId, Answer)>)
    ensures
        entries_map(r@) == answers@,
{
    let v = answers.to_entries();
    let mut r: Vec<(PlayerId, Answer)> = Vec::new();
    let mut i: usize = 0;
    while i < v.len()
        invariant
            i <= v.len(),
            r@ == v@.subrange(0, i as int),
        decreases v.len() - i,
    {
        r.push(v[i]);
        i = i + 1;
    }
    assert(r@ =~= v@);
    r
}

fn copy_text(s: &Option<String>) -> (r: Option<String>)
    ensures
        r is Some == s is Some,
        r is Some ==> r->0@ == s->0@,
{
    match s {
        Some(t) => Some(t.clone()),
        None => None,
    }
}

impl Game {
    /// The room as the player `this_player_id` sees it. `None` when the
    /// current question is missing from the bank.
    pub fn into_shared_model_game(
        &self,
        invite_code: &InviteCode,
        this_player_id: PlayerId,
        bank: &QuestionBank,
    ) -> (r: Option<GameSnapshot>)
        requires
            self.wf(),
            bank.wf(),
        ensures
            match r {
                Some(s) => shows_game(s, self@, invite_code@, this_player_id, bank@),
                None => self@.game_state is Playing && forall|i: int|
                    0 <= i < bank@.len() ==> (#[trigger] bank@[i]).id
                        != self@.game_state->current_question.question_id,
            },
    {
        let players = copy_players(&self.players);
        let code = invite_code.duplicate();
        let game_state = match &self.game_state {
            GameState::InLobby => SnapshotGameState::InLobby,
            GameState::Aftermath { ranked_players, restart_requests } =>
                SnapshotGameState::Aftermath {
                ranked_players: copy_ranked(ranked_players),
                restart_requests: copy_ids(restart_requests),
            },
            GameState::Playing { previous_questions, current_question, playing_state } => {
                let data = match get(bank, &current_question.question_id) {
                    Some(d) => d,
                    None => {
                        return None;
                    },
                };
                let title = data.title.clone();
                let playing = match playing_state {
                    PlayingState::Question { time_until, answers } =>
                        SnapshotPlayingState::Question {
                        current_question: Question { title },
                        time_until: *time_until,
                        answers: copy_answer_ids(answers),
                        own_answer: answers.get(this_player_id),
                    },
                    PlayingState::Solution { time_until, answers, skip_request } =>
                        SnapshotPlayingState::Solution {
                        current_question: SolvedQuestion {
                            question: Question { title },
                            url: data.url.clone(),
                            preview_image_url: copy_text(&data.preview_image_url),
                            answer: current_question.answer,
                        },
                        time_until: *time_until,
                        answers: copy_answers(answers),
                        skip_request: copy_ids(skip_request),
                    },
                };
                SnapshotGameState::Playing {
                    index_of_current_question: previous_questions.len(),
                    playing_state: playing,
                }
            },
        };
        let s = GameSnapshot {
            invite_code: code,
            configuration: self.configuration,
            game_state,
            players,
            this_player_id,
        };
        Some(s)
    }
}

impl GameSnapshot {
    /// The entry of the player that the snapshot is addressed to.
    pub fn get_this_player(&self) -> (r: Option<&Player>)
        ensures
            match r {
                Some(p) => p.id == self.this_player_id && self.players@.contains(*p),
                None => forall|i: int|
                    0 <= i < self.players@.len() ==> (#[trigger] self.players@[i]).id
                        != self.this_player_id,
            },
    {
        let mut i: usize = 0;
        while i < self.players.len()
            invariant
                i <= self.players.len(),
                forall|k: int| 0 <= k < i ==> (#[trigger] self.players@[k]).id != self.this_player_id,
            decreases self.players.len() - i,
        {
            if self.players[i].id == self.this_player_id {
                assert(self.players@[i as int] == self.players[i as int]);
                return Some(&self.players[i]);
            }
            i = i + 1;
        }
        None
    }
}

impl FromLobbyMessage {
    /// The wire message for the player `this_player_id`: the snapshot kinds
    /// carry the room `game` as that player sees it. `None` when the current
    /// question is missing from the bank.
    pub fn into_server_message(
        self,
        game: &Game,
        invite_code: &InviteCode,
        this_player_id: PlayerId,
        bank: &QuestionBank,
    ) -> (r: Option<ServerMessage>)
        requires
            game.wf(),
            bank.wf(),
        ensures
            match r {
                Some(ServerMessage::LobbyCreated(s)) => self == FromLobbyMessage::LobbyCreated
                    && shows_game(s, game@, invite_code@, this_player_id, bank@),
                Some(ServerMessage::LobbyJoined(s)) => self == FromLobbyMessage::LobbyJoined
                    && shows_game(s, game@, invite_code@, this_player_id, bank@),
                Some(ServerMessage::GameFullUpdate(s)) => self == FromLobbyMessage::GameFullUpdate
                    && shows_game(s, game@, invite_code@, this_player_id, bank@),
                Some(ServerMessage::AnswerNotInTimeLimit) => self
                    == FromLobbyMessage::AnswerNotInTimeLimit,
                Some(ServerMessage::PlayerNameAlreadyInUse) => self
                    == FromLobbyMessage::PlayerNameAlreadyInUse,
                None => {
                    &&& (self == FromLobbyMessage::LobbyCreated || self
                        == FromLobbyMessage::LobbyJoined || self == FromLobbyMessage::GameFullUpdate)
                    &&& game@.game_state is Playing
                    &&& forall|i: int|
                        0 <= i < bank@.len() ==> (#[trigger] bank@[i]).id
                            != game@.game_state->current_question.question_id
                },
            },
    {
        match self {
            FromLobbyMessage::LobbyCreated => match game.into_shared_model_game(
                invite_code,
                this_player_id,
                bank,
            ) {
                Some(s) => Some(ServerMessage::LobbyCreated(s)),
                None => None,
            },
            FromLobbyMessage::LobbyJoined => match game.into_shared_model_game(
                invite_code,
                this_player_id,
                bank,
            ) {
                Some(s) => Some(ServerMessage::LobbyJoined(s)),
                None => None,
            },
            FromLobbyMessage::GameFullUpdate => match game.into_shared_model_game(
                invite_code,
                this_player_id,
                bank,
            ) {
                Some(s) => Some(ServerMessage::GameFullUpdate(s)),
                None => None,
            },
            FromLobbyMessage::AnswerNotInTimeLimit => Some(ServerMessage::AnswerNotInTimeLimit),
            FromLobbyMessage::PlayerNameAlreadyInUse => Some(ServerMessage::PlayerNameAlreadyInUse),
        }
    }
}

impl ServerMessage {
    /// Addresses a snapshot to another player; the error signals carry none.
    pub fn replace_this_player_id_with(&mut self, this_player_id: PlayerId)
        ensures
            match (*old(self), *final(self)) {
                (ServerMessage::LobbyCreated(a), ServerMessage::LobbyCreated(b)) => b == (
                GameSnapshot { this_player_id, ..a }),
                (ServerMessage::LobbyJoined(a), ServerMessage::LobbyJoined(b)) => b == (
                GameSnapshot { this_player_id, ..a }),
                (ServerMessage::GameFullUpdate(a), ServerMessage::GameFullUpdate(b)) => b == (
                GameSnapshot { this_player_id, ..a }),
                (ServerMessage::AnswerNotInTimeLimit, ServerMessage::AnswerNotInTimeLimit) => true,
                (ServerMessage::PlayerNameAlreadyInUse, ServerMessage::PlayerNameAlreadyInUse) => true,
                _ => false,
            },
    {
        match self {
            ServerMessage::LobbyCreated(game) => {
                game.this_player_id = this_player_id;
            },
            ServerMessage::LobbyJoined(game) => {
                game.this_player_id = this_player_id;
            },
            ServerMessage::GameFullUpdate(game) => {
                game.this_player_id = this_player_id;
            },
            ServerMessage::AnswerNotInTimeLimit | ServerMessage::PlayerNameAlreadyInUse => {},
        }
    }
}

} // verus!
