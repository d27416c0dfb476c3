//! The data model of a game room: players, questions, answers and the
//! room's state machine values.

use vstd::prelude::*;

use crate::tables::{PlayerAnswers, PlayerIdSet};
use crate::text::{char_from_u32, chars_of, string_from_chars, trim, trimmed};

verus! {

/* PLAYER ID */

/// Identifies one connection's player; drawn at random when the connection opens.
#[derive(Clone, Copy, PartialEq, Eq, Structural, Debug, Hash, PartialOrd, Ord)]
pub struct PlayerId(pub u128);

/// Relies on `uuid::Uuid::new_v4`: 128 random bits, nothing more is promised.
#[verifier::external_body]
fn random_uuid_bits() -> (r: u128) {
    uuid::Uuid::new_v4().as_u128()
}

impl PlayerId {
    /// A fresh random identifier.
    pub fn generate() -> (r: PlayerId) {
        PlayerId(random_uuid_bits())
    }
}

/* QUESTION ID */

/// Identifies one question of the question bank.
#[derive(Clone, Copy, PartialEq, Eq, Structural, Debug, Hash, PartialOrd, Ord)]
pub struct QuestionId(pub u128);

impl QuestionId {
    /// A fresh random identifier.
    pub fn generate() -> (r: QuestionId) {
        QuestionId(random_uuid_bits())
    }
}

/* ANSWER */

/// The two possible classifications of a headline.
#[derive(Clone, Copy, PartialEq, Eq, Structural, Debug, Hash, PartialOrd, Ord)]
pub enum Answer {
    TheOnion,
    NotTheOnion,
}

/* ANSWERED QUESTION */

/// A question together with its true label.
#[derive(Clone, Copy, PartialEq, Eq, Structural, Debug, Hash, PartialOrd, Ord)]
pub struct AnsweredQuestion {
    pub question_id: QuestionId,
    pub answer: Answer,
}

/* PLAY TYPE */

/// Whether a participant plays (and collects points) or only watches.
#[derive(Clone, Copy, PartialEq, Eq, Structural, Debug, Hash, PartialOrd, Ord)]
pub enum PlayType {
    Player { points: u16 },
    Watcher,
}

/* GAME CONFIGURATION */

/// The settings a room is created with; they never change afterwards.
#[derive(Clone, Copy, PartialEq, Eq, Structural, Debug, Hash, PartialOrd, Ord)]
pub struct GameConfiguration {
    pub count_of_questions: u64,
    pub minimum_score_per_question: Option<i64>,
    /// In seconds; `None` means that questions have no time limit.
    pub maximum_answer_time_per_question: Option<u64>,
}

/* PLAYER NAME */

/// A player's display name: not empty, without surrounding white space.
#[derive(Clone, Eq, Debug, Hash, PartialOrd, Ord)]
pub struct PlayerName(String);

/// Why a text is no player name.
#[derive(Clone, Copy, PartialEq, Eq, Structural, Debug)]
pub enum PlayerNameFromStrError {
    EmptyAfterBeingTrimmed,
}

impl View for PlayerName {
    type V = Seq<char>;

    closed spec fn view(&self) -> Seq<char> {
        self.0@
    }
}

impl PartialEq for PlayerName {
    fn eq(&self, other: &PlayerName) -> (r: bool) {
        self.0 == other.0
    }
}

impl vstd::std_specs::cmp::PartialEqSpecImpl for PlayerName {
    open spec fn obeys_eq_spec() -> bool {
        true
    }

    open spec fn eq_spec(&self, other: &PlayerName) -> bool {
        self@ == other@
    }
}

impl PlayerName {
    pub open spec fn wf(&self) -> bool {
        self@.len() > 0
    }

    /// Trims `s`; a name that is empty after trimming is refused.
    pub fn from_str(s: &str) -> (r: Result<PlayerName, PlayerNameFromStrError>)
        ensures
            match r {
                Ok(name) => trimmed(s@).len() > 0 && name@ == trimmed(s@) && name.wf(),
                Err(e) => trimmed(s@).len() == 0 && e == PlayerNameFromStrError::EmptyAfterBeingTrimmed,
            },
    {
        let t = trim(s);
        if t.as_str().unicode_len() == 0 {
            Err(PlayerNameFromStrError::EmptyAfterBeingTrimmed)
        } else {
            Ok(PlayerName(t))
        }
    }

    pub fn into_inner(self) -> (r: String)
        ensures
            r@ == self@,
    {
        self.0
    }

    pub fn as_str(&self) -> (r: &str)
        ensures
            r@ == self@,
    {
        self.0.as_str()
    }

    pub fn same_as(&self, other: &PlayerName) -> (r: bool)
        ensures
            r == (self@ == other@),
    {
        self.0 == other.0
    }

    /// A second name with the same characters.
    pub fn duplicate(&self) -> (r: PlayerName)
        ensures
            r@ == self@,
    {
        PlayerName(self.0.clone())
    }
}

/* INVITE CODE */

pub const INVITE_CODE_CHAR_COUNT: usize = 4;

/// How many invite codes of four distinct letters exist.
pub const POSSIBLE_INVITE_CODE_COMBINATIONS: usize = 26 * 25 * 24 * 23;

pub open spec fn is_invite_code_char(c: char) -> bool {
    0x41 <= c as u32 && c as u32 <= 0x5a
}

/// Four upper-case letters of the Latin alphabet.
pub open spec fn is_invite_code(s: Seq<char>) -> bool {
    &&& s.len() == INVITE_CODE_CHAR_COUNT
    &&& forall|i: int| 0 <= i < s.len() ==> is_invite_code_char(#[trigger] s[i])
}

/// A lower-case Latin letter turned upper-case; every other character is kept.
pub open spec fn upper_latin(c: char) -> char {
    if 'a' <= c && c <= 'z' {
        ((c as u32) - 32) as char
    } else {
        c
    }
}

pub open spec fn upper_latin_all(s: Seq<char>) -> Seq<char> {
    s.map_values(|c: char| upper_latin(c))
}

/// The shareable code behind which a room can be joined.
#[derive(Clone, Eq, Debug, Hash, PartialOrd, Ord)]
pub struct InviteCode(String);

/// Why a text is no invite code.
#[derive(Clone, Copy, PartialEq, Eq, Structural, Debug)]
pub enum InviteCodeFromStrError {
    IncorrectCountOfChars { is: usize, expected: usize },
    InvalidCharInInviteCode,
}

impl View for InviteCode {
    type V = Seq<char>;

    closed spec fn view(&self) -> Seq<char> {
        self.0@
    }
}

impl PartialEq for InviteCode {
    fn eq(&self, other: &InviteCode) -> (r: bool) {
        self.0 == other.0
    }
}

impl vstd::std_specs::cmp::PartialEqSpecImpl for InviteCode {
    open spec fn obeys_eq_spec() -> bool {
        true
    }

    open spec fn eq_spec(&self, other: &InviteCode) -> bool {
        self@ == other@
    }
}

fn upper_latin_char(c: char) -> (r: char)
    ensures
        r == upper_latin(c),
{
    if 'a' <= c && c <= 'z' {
        let u: u32 = (c as u32) - 32;
        assert(0x41 <= u <= 0x5a);
        char_from_u32(u)
    } else {
        c
    }
}

impl InviteCode {
    pub open spec fn wf(&self) -> bool {
        is_invite_code(self@)
    }

    /// Builds a code from four letters.
    pub fn from_chars(cs: &Vec<char>) -> (r: InviteCode)
        requires
            is_invite_code(cs@),
        ensures
            r@ == cs@,
            r.wf(),
    {
        InviteCode(string_from_chars(cs))
    }

    /// Trims `s` and upper-cases it; the result must be four Latin letters.
    pub fn from_str(s: &str) -> (r: Result<InviteCode, InviteCodeFromStrError>)
        ensures
            match r {
                Ok(code) => code@ == upper_latin_all(trimmed(s@)) && code.wf(),
                Err(InviteCodeFromStrError::IncorrectCountOfChars { is, expected }) =>
                    trimmed(s@).len() != INVITE_CODE_CHAR_COUNT
                    && is == trimmed(s@).len() && expected == INVITE_CODE_CHAR_COUNT,
                Err(InviteCodeFromStrError::InvalidCharInInviteCode) =>
                    trimmed(s@).len() == INVITE_CODE_CHAR_COUNT
                    && !is_invite_code(upper_latin_all(trimmed(s@))),
            },
    {
        let t = trim(s);
        let cs = chars_of(t.as_str());
        if cs.len() != INVITE_CODE_CHAR_COUNT {
            return Err(InviteCodeFromStrError::IncorrectCountOfChars {
                is: cs.len(),
                expected: INVITE_CODE_CHAR_COUNT,
            });
        }
        let mut upper: Vec<char> = Vec::new();
        let mut i: usize = 0;
        while i < cs.len()
            invariant
                cs@ == trimmed(s@),
                cs.len() == INVITE_CODE_CHAR_COUNT,
                i <= cs.len(),
                upper@ == upper_latin_all(cs@).subrange(0, i as int),
                forall|j: int| 0 <= j < i ==> is_invite_code_char(#[trigger] upper@[j]),
            decreases cs.len() - i,
        {
            let c = upper_latin_char(cs[i]);
            if !(0x41 <= c as u32 && c as u32 <= 0x5a) {
                assert(upper_latin_all(cs@)[i as int] == c);
                assert(!is_invite_code_char(upper_latin_all(cs@)[i as int]));
                return Err(InviteCodeFromStrError::InvalidCharInInviteCode);
            }
            upper.push(c);
            i = i + 1;
        }
        assert(upper@ =~= upper_latin_all(cs@));
        Ok(InviteCode::from_chars(&upper))
    }

    pub fn into_inner(self) -> (r: String)
        ensures
            r@ == self@,
    {
        self.0
    }

    pub fn as_str(&self) -> (r: &str)
        ensures
            r@ == self@,
    {
        self.0.as_str()
    }

    /// A second code with the same characters.
    pub fn duplicate(&self) -> (r: InviteCode)
        ensures
            r@ == self@,
    {
        InviteCode(self.0.clone())
    }
}

/* PLAYER */

/// A participant of a room.
#[derive(Clone, PartialEq, Eq, Debug, Hash)]
pub struct Player {
    pub id: PlayerId,
    pub name: PlayerName,
    pub play_type: PlayType,
}

/// A participant as the contracts see it.
pub struct PlayerView {
    pub id: PlayerId,
    pub name: Seq<char>,
    pub play_type: PlayType,
}

impl View for Player {
    type V = PlayerView;

    open spec fn view(&self) -> PlayerView {
        PlayerView { id: self.id, name: self.name@, play_type: self.play_type }
    }
}

impl Player {
    /// Whether the participant plays rather than watches.
    pub fn is_player(&self) -> (r: bool)
        ensures
            r == (self.play_type is Player),
    {
        match self.play_type {
            PlayType::Player { .. } => true,
            PlayType::Watcher => false,
        }
    }

    /// Whether the participant only watches.
    pub fn is_watcher(&self) -> (r: bool)
        ensures
            r == (self.play_type is Watcher),
    {
        !self.is_player()
    }
}

pub open spec fn players_view(ps: Seq<Player>) -> Seq<PlayerView> {
    ps.map_values(|p: Player| p@)
}

/* PLAYING STATE */

/// The phase of the current question.
#[derive(Clone, PartialEq, Eq, Debug)]
pub enum PlayingState {
    /// Answers are collected until `time_until` (milliseconds since the Unix
    /// epoch; `None`: no time limit).
    Question { time_until: Option<i64>, answers: PlayerAnswers },
    /// The true label is shown until `time_until`, or until every player asked
    /// to go on.
    Solution { time_until: i64, answers: PlayerAnswers, skip_request: PlayerIdSet },
}

pub enum PlayingStateView {
    Question { time_until: Option<i64>, answers: Map<PlayerId, Answer> },
    Solution { time_until: i64, answers: Map<PlayerId, Answer>, skip_request: Set<PlayerId> },
}

impl View for PlayingState {
    type V = PlayingStateView;

    open spec fn view(&self) -> PlayingStateView {
        match self {
            PlayingState::Question { time_until, answers } => PlayingStateView::Question {
                time_until: *time_until,
                answers: answers@,
            },
            PlayingState::Solution { time_until, answers, skip_request } =>
                PlayingStateView::Solution {
                time_until: *time_until,
                answers: answers@,
                skip_request: skip_request@,
            },
        }
    }
}

/* GAME STATE */

/// One entry of the final standings: a player, their name and their points.
pub type RankedPlayer = (PlayerId, PlayerName, u16);

/// The room's main state machine.
#[derive(Clone, PartialEq, Eq, Debug)]
pub enum GameState {
    InLobby,
    Playing {
        previous_questions: Vec<(AnsweredQuestion, PlayerAnswers)>,
        current_question: AnsweredQuestion,
        playing_state: PlayingState,
    },
    Aftermath { ranked_players: Vec<RankedPlayer>, restart_requests: PlayerIdSet },
}

pub enum GameStateView {
    InLobby,
    Playing {
        previous_questions: Seq<(AnsweredQuestion, Map<PlayerId, Answer>)>,
        current_question: AnsweredQuestion,
        playing_state: PlayingStateView,
    },
    Aftermath { ranked_players: Seq<(PlayerId, Seq<char>, u16)>, restart_requests: Set<PlayerId> },
}

pub open spec fn previous_view(s: Seq<(AnsweredQuestion, PlayerAnswers)>) -> Seq<
    (AnsweredQuestion, Map<PlayerId, Answer>),
> {
    s.map_values(|e: (AnsweredQuestion, PlayerAnswers)| (e.0, e.1@))
}

pub open spec fn ranked_view(s: Seq<RankedPlayer>) -> Seq<(PlayerId, Seq<char>, u16)> {
    s.map_values(|e: RankedPlayer| (e.0, e.1@, e.2))
}

impl View for GameState {
    type V = GameStateView;

    open spec fn view(&self) -> GameStateView {
        match self {
            GameState::InLobby => GameStateView::InLobby,
            GameState::Playing { previous_questions, current_question, playing_state } =>
                GameStateView::Playing {
                previous_questions: previous_view(previous_questions@),
                current_question: *current_question,
                playing_state: playing_state@,
            },
            GameState::Aftermath { ranked_players, restart_requests } =>
                GameStateView::Aftermath {
                ranked_players: ranked_view(ranked_players@),
                restart_requests: restart_requests@,
            },
        }
    }
}

/* GAME */

/// Everything a room knows: its settings, its state and its participants in
/// the order in which they registered.
#[derive(Clone, PartialEq, Eq, Debug)]
pub struct Game {
    pub configuration: GameConfiguration,
    pub game_state: GameState,
    pub players: Vec<Player>,
}

pub struct GameView {
    pub configuration: GameConfiguration,
    pub game_state: GameStateView,
    pub players: Seq<PlayerView>,
}

impl View for Game {
    type V = GameView;

    open spec fn view(&self) -> GameView {
        GameView {
            configuration: self.configuration,
            game_state: self.game_state@,
            players: players_view(self.players@),
        }
    }
}

pub open spec fn ids_unique(ps: Seq<PlayerView>) -> bool {
    forall|i: int, j: int| 0 <= i < j < ps.len() ==> #[trigger] ps[i].id != #[trigger] ps[j].id
}

/// How many questions a round may still be playing at most: a round always
/// plays at least one.
pub open spec fn round_length(c: GameConfiguration) -> int {
    if c.count_of_questions == 0 {
        1
    } else {
        c.count_of_questions as int
    }
}

/// The state invariant of a room, on the model.
pub open spec fn game_view_wf(g: GameView) -> bool {
    &&& ids_unique(g.players)
    &&& match g.game_state {
        GameStateView::Playing { previous_questions, .. } => previous_questions.len()
            < round_length(g.configuration),
        _ => true,
    }
}

impl Game {
    /// A fresh room: in the lobby, without participants.
    pub fn new(configuration: GameConfiguration) -> (r: Game)
        ensures
            r.wf(),
            r@.configuration == configuration,
            r@.game_state == GameStateView::InLobby,
            r@.players.len() == 0,
    {
        let r = Game { configuration, game_state: GameState::InLobby, players: Vec::new() };
        assert(r@.players =~= Seq::<PlayerView>::empty());
        r
    }

    pub open spec fn wf(&self) -> bool {
        game_view_wf(self@)
    }

}

} // verus!
