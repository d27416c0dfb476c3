//! What a connection asks for when it opens: create a room or join one.

use vstd::prelude::*;

use crate::lobby::{ClientMessage, RegisterType, ToLobbyMessage};
use crate::model::{GameConfiguration, PlayerId, PlayerName, PlayerNameFromStrError};
use crate::question_bank::{calculate_count_of_questions, count_meeting, QuestionBank};
use crate::text::trimmed;

verus! {

/// The settings of a new room: a missing question count becomes the number
/// of questions that meet the score floor.
pub fn game_configuration(
    bank: &QuestionBank,
    count_of_questions: Option<u64>,
    minimum_score_per_question: Option<i64>,
    maximum_answer_time_per_question: Option<u64>,
) -> (r: GameConfiguration)
    requires
        bank.wf(),
    ensures
        r.count_of_questions == match count_of_questions {
            Some(c) => c as int,
            None => count_meeting(bank@, minimum_score_per_question) as int,
        },
        r.minimum_score_per_question == minimum_score_per_question,
        r.maximum_answer_time_per_question == maximum_answer_time_per_question,
{
    let count = match count_of_questions {
        Some(c) => c,
        None => calculate_count_of_questions(bank, minimum_score_per_question) as u64,
    };
    GameConfiguration {
        count_of_questions: count,
        minimum_score_per_question,
        maximum_answer_time_per_question,
    }
}

/// The request that opens a connection creating a room.
#[derive(Clone, PartialEq, Eq, Debug, Hash)]
pub struct CreateLobbyQuery {
    pub player_name: String,
    pub just_watch: bool,
    pub count_of_questions: Option<u64>,
    pub minimum_score_per_question: Option<i64>,
    pub maximum_answer_time_per_question: Option<u64>,
}

/// The request that opens a connection joining a room.
#[derive(Clone, PartialEq, Eq, Debug, Hash)]
pub struct JoinLobbyQuery {
    pub player_name: String,
    pub just_watch: bool,
}

/// The registration of `player_id` under `player_name`; a name that is
/// empty after trimming is refused.
pub fn registration(
    player_id: PlayerId,
    player_name: &str,
    just_watch: bool,
    register_type: RegisterType,
) -> (r: Result<ToLobbyMessage, PlayerNameFromStrError>)
    ensures
        match r {
            Ok(ToLobbyMessage::Register { player_id: id, name, just_watch: w, register_type: t }) => {
                &&& trimmed(player_name@).len() > 0
                &&& id == player_id
                &&& name@ == trimmed(player_name@)
                &&& w == just_watch
                &&& t == register_type
            },
            Ok(_) => false,
            Err(_) => trimmed(player_name@).len() == 0,
        },
{
    match PlayerName::from_str(player_name) {
        Ok(name) => Ok(ToLobbyMessage::Register { player_id, name, just_watch, register_type }),
        Err(e) => Err(e),
    }
}

impl CreateLobbyQuery {
    /// The settings of the room to create.
    pub fn game_configuration(&self, bank: &QuestionBank) -> (r: GameConfiguration)
        requires
            bank.wf(),
        ensures
            r.count_of_questions == match self.count_of_questions {
                Some(c) => c as int,
                None => count_meeting(bank@, self.minimum_score_per_question) as int,
            },
            r.minimum_score_per_question == self.minimum_score_per_question,
            r.maximum_answer_time_per_question == self.maximum_answer_time_per_question,
    {
        game_configuration(
            bank,
            self.count_of_questions,
            self.minimum_score_per_question,
            self.maximum_answer_time_per_question,
        )
    }

    /// The creator's registration in the new room.
    pub fn registration(&self, player_id: PlayerId) -> (r: Result<ToLobbyMessage, PlayerNameFromStrError>)
        ensures
            match r {
                Ok(ToLobbyMessage::Register { player_id: id, name, just_watch, register_type }) => {
                    &&& id == player_id
                    &&& name@ == trimmed(self.player_name@)
                    &&& just_watch == self.just_watch
                    &&& register_type == RegisterType::Creator
                },
                Ok(_) => false,
                Err(_) => trimmed(self.player_name@).len() == 0,
            },
    {
        registration(player_id, self.player_name.as_str(), self.just_watch, RegisterType::Creator)
    }
}

impl JoinLobbyQuery {
    /// The joiner's registration in the room.
    pub fn registration(&self, player_id: PlayerId) -> (r: Result<ToLobbyMessage, PlayerNameFromStrError>)
        ensures
            match r {
                Ok(ToLobbyMessage::Register { player_id: id, name, just_watch, register_type }) => {
                    &&& id == player_id
                    &&& name@ == trimmed(self.player_name@)
                    &&& just_watch == self.just_watch
                    &&& register_type == RegisterType::Joiner
                },
                Ok(_) => false,
                Err(_) => trimmed(self.player_name@).len() == 0,
            },
    {
        registration(player_id, self.player_name.as_str(), self.just_watch, RegisterType::Joiner)
    }
}

/// What the first message on a plain connection asks for.
#[derive(Clone, PartialEq, Eq, Debug)]
pub enum Opening {
    Create(CreateLobbyQuery),
    Join { invite_code: String, query: JoinLobbyQuery },
}

/// Reads the first message of a connection that did not name its purpose in
/// its address: it must create or join a room; any other message is refused.
pub fn opening_request(message: ClientMessage) -> (r: Option<Opening>)
    ensures
        match message {
            ClientMessage::CreateLobby {
                player_name,
                just_watch,
                count_of_questions,
                minimum_score_per_question,
                maximum_answer_time_per_question,
            } => r == Some(
                Opening::Create(
                    (CreateLobbyQuery {
                        player_name,
                        just_watch,
                        count_of_questions,
                        minimum_score_per_question,
                        maximum_answer_time_per_question,
                    }),
                ),
            ),
            ClientMessage::JoinLobby { player_name, invite_code, just_watch } => r == Some(
                Opening::Join { invite_code, query: (JoinLobbyQuery { player_name, just_watch }) },
            ),
            _ => r is None,
        },
{
    match message {
        ClientMessage::CreateLobby {
            player_name,
            just_watch,
            count_of_questions,
            minimum_score_per_question,
            maximum_answer_time_per_question,
        } => Some(
            Opening::Create(
                CreateLobbyQuery {
                    player_name,
                    just_watch,
                    count_of_questions,
                    minimum_score_per_question,
                    maximum_answer_time_per_question,
                },
            ),
        ),
        ClientMessage::JoinLobby { player_name, invite_code, just_watch } => Some(
            Opening::Join { invite_code, query: JoinLobbyQuery { player_name, just_watch } },
        ),
        _ => None,
    }
}

} // verus!
