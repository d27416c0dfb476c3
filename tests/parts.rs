use onion_game::connection::{
    game_configuration, opening_request, registration, CreateLobbyQuery, JoinLobbyQuery, Opening,
};
use onion_game::lobby::{
    process_client_message, ClientMessage, ClientType, FromLobbyMessage, RegisterType,
    ToLobbyMessage,
};
use onion_game::model::{
    Answer, Game, GameConfiguration, InviteCode, InviteCodeFromStrError, PlayerId, PlayerName,
    PlayerNameFromStrError, QuestionId, POSSIBLE_INVITE_CODE_COMBINATIONS,
};
use onion_game::network::{ServerMessage, SnapshotGameState, SnapshotPlayingState};
use onion_game::question_bank::{
    answer_of_subreddit, calculate_count_of_questions, count_candidates, distribution, get,
    get_answered_question, pick_answered_question,
    get_random_answered_question, get_random_question_id, GetRandomQuestionIdError, QuestionBank,
    QuestionBankError, RedditSubmissionData,
};
use onion_game::registry::{CreateLobbyError, InviteCodes};
use onion_game::rules::deadline_after_seconds;

fn submission(subreddit: &str, score: u64, title: &str) -> RedditSubmissionData {
    RedditSubmissionData {
        subreddit: subreddit.to_string(),
        subreddit_id: "t5_x".to_string(),
        id: "abc".to_string(),
        permalink: "/r/x/abc".to_string(),
        created: 1,
        created_utc: 1,
        url: format!("https://example.com/{title}"),
        title: title.to_string(),
        score,
        downs: 0,
        ups: score,
        over_18: false,
        thumbnail: "".to_string(),
        preview_image_url: Some(format!("https://example.com/{title}.png")),
    }
}

fn bank() -> QuestionBank {
    QuestionBank::new(vec![
        (QuestionId(1), submission("theonion", 10, "One")),
        (QuestionId(2), submission("NotTheOnion", 20, "Two")),
        (QuestionId(3), submission("nottheonion", 20, "Three")),
        (QuestionId(4), submission("TheOnion", 30, "Four")),
    ])
    .unwrap()
}

#[test]
fn subreddit_labels_ignore_case() {
    assert_eq!(answer_of_subreddit("NotTheOnion"), Some(Answer::NotTheOnion));
    assert_eq!(answer_of_subreddit("THEONION"), Some(Answer::TheOnion));
    assert_eq!(answer_of_subreddit("news"), None);
}

#[test]
fn unknown_subreddit_refuses_the_data_set() {
    let r = QuestionBank::new(vec![
        (QuestionId(1), submission("theonion", 10, "One")),
        (QuestionId(2), submission("news", 10, "Two")),
    ]);
    assert_eq!(r.unwrap_err(), QuestionBankError::UnknownSubreddit { index: 1 });
}

#[test]
fn lookup_by_id() {
    let b = bank();
    assert_eq!(b.len(), 4);
    assert_eq!(get(&b, &QuestionId(3)).unwrap().title, "Three");
    assert!(get(&b, &QuestionId(9)).is_none());
    assert_eq!(
        get_answered_question(&b, QuestionId(2)).unwrap().answer,
        Answer::NotTheOnion
    );
    assert_eq!(get_answered_question(&b, QuestionId(4)).unwrap().answer, Answer::TheOnion);
    assert!(get_answered_question(&b, QuestionId(9)).is_none());
}

#[test]
fn count_of_questions_by_floor() {
    let b = bank();
    assert_eq!(calculate_count_of_questions(&b, None), 4);
    assert_eq!(calculate_count_of_questions(&b, Some(20)), 3);
    assert_eq!(calculate_count_of_questions(&b, Some(31)), 0);
    assert_eq!(calculate_count_of_questions(&b, Some(-5)), 4);
}

#[test]
fn score_distribution() {
    let d = distribution(&bank());
    assert_eq!(d.len(), 3);
    assert_eq!(d.get(&10), Some(&1));
    assert_eq!(d.get(&20), Some(&2));
    assert_eq!(d.get(&30), Some(&1));
}

#[test]
fn draws_respect_floor_and_blacklist() {
    let b = bank();
    for _ in 0..50 {
        let id = get_random_question_id(&b, Some(20), &vec![QuestionId(2), QuestionId(4)]).unwrap();
        assert_eq!(id, QuestionId(3));
        let q = get_random_answered_question(&b, Some(15), &vec![QuestionId(3)]).unwrap();
        assert!(q.question_id == QuestionId(2) || q.question_id == QuestionId(4));
        let expected = if q.question_id == QuestionId(2) { Answer::NotTheOnion } else { Answer::TheOnion };
        assert_eq!(q.answer, expected);
    }
    assert_eq!(
        get_random_question_id(&b, Some(40), &vec![]),
        Err(GetRandomQuestionIdError::NoneFound)
    );
    let all = vec![QuestionId(1), QuestionId(2), QuestionId(3), QuestionId(4)];
    assert_eq!(
        get_random_answered_question(&b, None, &all),
        Err(GetRandomQuestionIdError::NoneFound)
    );
}

#[test]
fn player_names_are_trimmed() {
    let name = PlayerName::from_str("  Alice \t").unwrap();
    assert_eq!(name.as_str(), "Alice");
    assert_eq!(name.into_inner(), "Alice".to_string());
    assert_eq!(PlayerName::from_str("   "), Err(PlayerNameFromStrError::EmptyAfterBeingTrimmed));
    assert_eq!(PlayerName::from_str(""), Err(PlayerNameFromStrError::EmptyAfterBeingTrimmed));
}

#[test]
fn invite_codes_parse_case_insensitively() {
    let code = InviteCode::from_str(" abCd ").unwrap();
    assert_eq!(code.as_str(), "ABCD");
    assert_eq!(code.into_inner(), "ABCD".to_string());
    assert_eq!(
        InviteCode::from_str("ABCDE"),
        Err(InviteCodeFromStrError::IncorrectCountOfChars { is: 5, expected: 4 })
    );
    assert_eq!(
        InviteCode::from_str(""),
        Err(InviteCodeFromStrError::IncorrectCountOfChars { is: 0, expected: 4 })
    );
    assert_eq!(InviteCode::from_str("AB1D"), Err(InviteCodeFromStrError::InvalidCharInInviteCode));
    assert_eq!(InviteCode::from_str("ABÄD"), Err(InviteCodeFromStrError::InvalidCharInInviteCode));
}

#[test]
fn generated_codes_are_four_distinct_letters() {
    for _ in 0..100 {
        let code = InviteCode::generate();
        let chars: Vec<char> = code.as_str().chars().collect();
        assert_eq!(chars.len(), 4);
        assert!(chars.iter().all(|c| c.is_ascii_uppercase()));
        for i in 0..4 {
            for j in (i + 1)..4 {
                assert_ne!(chars[i], chars[j]);
            }
        }
        assert_eq!(InviteCode::from_str(code.as_str()), Ok(code.clone()));
    }
    assert_eq!(POSSIBLE_INVITE_CODE_COMBINATIONS, 358_800);
}

#[test]
fn invite_code_non_collision() {
    let mut codes = InviteCodes::new();
    let mut issued: Vec<String> = Vec::new();
    for _ in 0..300 {
        let code = codes.create().unwrap();
        assert!(codes.is_live(&code));
        issued.push(code.into_inner());
    }
    let mut sorted = issued.clone();
    sorted.sort();
    sorted.dedup();
    assert_eq!(sorted.len(), issued.len());
}

#[test]
fn retired_codes_are_held_back() {
    let mut codes = InviteCodes::new();
    let code = codes.create().unwrap();
    assert!(!codes.try_reserve(code.clone()));
    codes.remove(&code);
    assert!(!codes.is_live(&code));
    assert!(!codes.try_reserve(code.clone()));
    let other = InviteCode::from_str("WXYZ").unwrap();
    if !codes.is_live(&other) && other != code {
        assert!(codes.try_reserve(other.clone()));
        assert!(codes.is_live(&other));
    }
    assert_eq!(CreateLobbyError::NoFreeInviteCode, CreateLobbyError::NoFreeInviteCode);
}

#[test]
fn history_is_trimmed_past_its_limit() {
    let mut codes = InviteCodes::new();
    let first = InviteCode::from_str("AAAA").unwrap();
    assert!(codes.try_reserve(first.clone()));
    codes.remove(&first);
    for _ in 0..358 {
        let c = codes.create().unwrap();
        codes.remove(&c);
    }
    // 359 retired codes exceed the limit of 358: the oldest tenth is released.
    assert!(codes.try_reserve(first.clone()));
}

#[test]
fn configuration_defaults_to_the_qualifying_count() {
    let b = bank();
    assert_eq!(game_configuration(&b, None, Some(20), Some(15)).count_of_questions, 3);
    assert_eq!(game_configuration(&b, Some(2), Some(20), None).count_of_questions, 2);
    let q = CreateLobbyQuery {
        player_name: " Host ".to_string(),
        just_watch: false,
        count_of_questions: None,
        minimum_score_per_question: None,
        maximum_answer_time_per_question: Some(20),
    };
    assert_eq!(
        q.game_configuration(&b),
        GameConfiguration {
            count_of_questions: 4,
            minimum_score_per_question: None,
            maximum_answer_time_per_question: Some(20),
        }
    );
    match q.registration(PlayerId(9)).unwrap() {
        ToLobbyMessage::Register { player_id, name, just_watch, register_type } => {
            assert_eq!(player_id, PlayerId(9));
            assert_eq!(name.as_str(), "Host");
            assert!(!just_watch);
            assert_eq!(register_type, RegisterType::Creator);
        }
        other => panic!("expected a registration, found {other:?}"),
    }
    let j = JoinLobbyQuery { player_name: "  ".to_string(), just_watch: true };
    assert_eq!(j.registration(PlayerId(3)), Err(PlayerNameFromStrError::EmptyAfterBeingTrimmed));
    assert!(registration(PlayerId(1), "Guest", true, RegisterType::Joiner).is_ok());
    assert_eq!(ClientType::LobbyCreator.into_register_type(), RegisterType::Creator);
    assert_eq!(ClientType::LobbyJoiner.into_register_type(), RegisterType::Joiner);
}

#[test]
fn deadlines_saturate() {
    assert_eq!(deadline_after_seconds(1_000, 30), 31_000);
    assert_eq!(deadline_after_seconds(-5_000, 2), -3_000);
    assert_eq!(deadline_after_seconds(i64::MAX - 10, 1), i64::MAX);
    assert_eq!(deadline_after_seconds(0, u64::MAX), i64::MAX);
}

fn playing_room(b: &QuestionBank) -> Game {
    let mut game = Game::new(GameConfiguration {
        count_of_questions: 1,
        minimum_score_per_question: Some(30),
        maximum_answer_time_per_question: None,
    });
    for (id, name) in [(1u128, "A"), (2, "B")] {
        process_client_message(
            &mut game,
            ToLobbyMessage::Register {
                player_id: PlayerId(id),
                name: PlayerName::from_str(name).unwrap(),
                just_watch: false,
                register_type: RegisterType::Joiner,
            },
            0,
            b,
        )
        .unwrap();
    }
    process_client_message(
        &mut game,
        ToLobbyMessage::ClientMessage { player_id: PlayerId(1), client_message: ClientMessage::StartGame },
        0,
        b,
    )
    .unwrap();
    game
}

#[test]
fn snapshots_hide_other_answers() {
    let b = bank();
    let mut game = playing_room(&b);
    process_client_message(
        &mut game,
        ToLobbyMessage::ClientMessage {
            player_id: PlayerId(1),
            client_message: ClientMessage::ChooseAnswer(Answer::NotTheOnion),
        },
        1,
        &b,
    )
    .unwrap();
    let code = InviteCode::from_str("ABCD").unwrap();
    let for_b = game.into_shared_model_game(&code, PlayerId(2), &b).unwrap();
    assert_eq!(for_b.this_player_id, PlayerId(2));
    assert_eq!(for_b.players.len(), 2);
    match for_b.game_state {
        SnapshotGameState::Playing { index_of_current_question, playing_state } => {
            assert_eq!(index_of_current_question, 0);
            match playing_state {
                SnapshotPlayingState::Question { current_question, answers, own_answer, time_until } => {
                    assert_eq!(current_question.title, "Four");
                    assert_eq!(answers, vec![PlayerId(1)]);
                    assert_eq!(own_answer, None);
                    assert_eq!(time_until, None);
                }
                other => panic!("expected the question, found {other:?}"),
            }
        }
        other => panic!("expected a round, found {other:?}"),
    }
    let for_a = game.into_shared_model_game(&code, PlayerId(1), &b).unwrap();
    match for_a.game_state {
        SnapshotGameState::Playing { playing_state: SnapshotPlayingState::Question { own_answer, .. }, .. } => {
            assert_eq!(own_answer, Some(Answer::NotTheOnion))
        }
        other => panic!("expected the question, found {other:?}"),
    }
}

#[test]
fn snapshots_show_the_solution() {
    let b = bank();
    let mut game = playing_room(&b);
    for id in [1u128, 2] {
        process_client_message(
            &mut game,
            ToLobbyMessage::ClientMessage {
                player_id: PlayerId(id),
                client_message: ClientMessage::ChooseAnswer(Answer::TheOnion),
            },
            1,
            &b,
        )
        .unwrap();
    }
    let code = InviteCode::from_str("ABCD").unwrap();
    let message = FromLobbyMessage::GameFullUpdate.into_server_message(&game, &code, PlayerId(2), &b).unwrap();
    let mut message = match message {
        ServerMessage::GameFullUpdate(s) => {
            match &s.game_state {
                SnapshotGameState::Playing {
                    playing_state: SnapshotPlayingState::Solution { current_question, answers, skip_request, time_until },
                    ..
                } => {
                    assert_eq!(current_question.answer, Answer::TheOnion);
                    assert_eq!(current_question.question.title, "Four");
                    assert_eq!(current_question.url, "https://example.com/Four");
                    assert_eq!(current_question.preview_image_url, Some("https://example.com/Four.png".to_string()));
                    let mut given = answers.clone();
                    given.sort();
                    assert_eq!(given, vec![(PlayerId(1), Answer::TheOnion), (PlayerId(2), Answer::TheOnion)]);
                    assert!(skip_request.is_empty());
                    assert_eq!(*time_until, 30_001);
                }
                other => panic!("expected the solution, found {other:?}"),
            }
            ServerMessage::GameFullUpdate(s)
        }
        other => panic!("expected a snapshot, found {other:?}"),
    };
    message.replace_this_player_id_with(PlayerId(1));
    match &message {
        ServerMessage::GameFullUpdate(s) => assert_eq!(s.this_player_id, PlayerId(1)),
        other => panic!("expected a snapshot, found {other:?}"),
    }
    assert_eq!(
        FromLobbyMessage::AnswerNotInTimeLimit.into_server_message(&game, &code, PlayerId(2), &b),
        Some(ServerMessage::AnswerNotInTimeLimit)
    );
    let mut error = ServerMessage::PlayerNameAlreadyInUse;
    error.replace_this_player_id_with(PlayerId(5));
    assert_eq!(error, ServerMessage::PlayerNameAlreadyInUse);
}

#[test]
fn lobby_snapshot_needs_no_question() {
    let empty = QuestionBank::new(vec![]).unwrap();
    let game = Game::new(GameConfiguration {
        count_of_questions: 3,
        minimum_score_per_question: None,
        maximum_answer_time_per_question: None,
    });
    let code = InviteCode::from_str("QRST").unwrap();
    let s = game.into_shared_model_game(&code, PlayerId(1), &empty).unwrap();
    assert_eq!(s.game_state, SnapshotGameState::InLobby);
    assert_eq!(s.invite_code.as_str(), "QRST");
    assert!(s.players.is_empty());
}

#[test]
fn random_ids_differ() {
    assert_ne!(PlayerId::generate(), PlayerId::generate());
    assert_ne!(QuestionId::generate(), QuestionId::generate());
}

#[test]
fn first_message_opens_a_connection() {
    let create = ClientMessage::CreateLobby {
        player_name: "Host".to_string(),
        just_watch: true,
        count_of_questions: Some(5),
        minimum_score_per_question: Some(100),
        maximum_answer_time_per_question: None,
    };
    assert_eq!(
        opening_request(create),
        Some(Opening::Create(CreateLobbyQuery {
            player_name: "Host".to_string(),
            just_watch: true,
            count_of_questions: Some(5),
            minimum_score_per_question: Some(100),
            maximum_answer_time_per_question: None,
        }))
    );
    let join = ClientMessage::JoinLobby {
        player_name: "Guest".to_string(),
        invite_code: "abcd".to_string(),
        just_watch: false,
    };
    assert_eq!(
        opening_request(join),
        Some(Opening::Join {
            invite_code: "abcd".to_string(),
            query: JoinLobbyQuery { player_name: "Guest".to_string(), just_watch: false },
        })
    );
    assert_eq!(opening_request(ClientMessage::StartGame), None);
    assert_eq!(opening_request(ClientMessage::ChooseAnswer(Answer::TheOnion)), None);
}

#[test]
fn snapshot_finds_its_player() {
    let b = bank();
    let game = playing_room(&b);
    let code = InviteCode::from_str("ABCD").unwrap();
    let s = game.into_shared_model_game(&code, PlayerId(2), &b).unwrap();
    let me = s.get_this_player().unwrap();
    assert_eq!(me.id, PlayerId(2));
    assert_eq!(me.name.as_str(), "B");
    assert!(!me.is_watcher());
    assert!(me.is_player());
    let stranger = game.into_shared_model_game(&code, PlayerId(9), &b).unwrap();
    assert!(stranger.get_this_player().is_none());
}

#[test]
fn duplicate_question_id_refuses_the_data_set() {
    let r = QuestionBank::new(vec![
        (QuestionId(1), submission("theonion", 10, "One")),
        (QuestionId(2), submission("theonion", 10, "Two")),
        (QuestionId(1), submission("nottheonion", 10, "Three")),
    ]);
    assert_eq!(r.unwrap_err(), QuestionBankError::DuplicateQuestionId { index: 2 });
}

#[test]
fn every_candidate_can_be_picked() {
    let b = bank();
    let floor = Some(20);
    let none: Vec<QuestionId> = vec![];
    assert_eq!(count_candidates(&b, floor, &none), 3);
    let picked: Vec<u128> = (0..3)
        .map(|k| pick_answered_question(&b, floor, &none, k).unwrap().question_id.0)
        .collect();
    assert_eq!(picked, vec![2, 3, 4]);
    assert_eq!(pick_answered_question(&b, floor, &none, 3), None);
    assert_eq!(
        pick_answered_question(&b, None, &vec![QuestionId(1)], 0).map(|q| q.answer),
        Some(Answer::NotTheOnion)
    );
}
