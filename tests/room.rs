use onion_game::lobby::{
    process_client_message, ClientMessage, Delivery, FromLobbyMessage, LobbyReaction,
    RegisterType, ToLobbyMessage,
};
use onion_game::model::{
    Answer, Game, GameConfiguration, GameState, PlayType, PlayerId, PlayerName, PlayingState,
    QuestionId,
};
use onion_game::question_bank::{QuestionBank, RedditSubmissionData};
use onion_game::ranking::{ranking_places, standings_order};

fn submission(subreddit: &str, score: u64, title: &str) -> RedditSubmissionData {
    RedditSubmissionData {
        subreddit: subreddit.to_string(),
        subreddit_id: "t5_x".to_string(),
        id: "abc".to_string(),
        permalink: "/r/x/abc".to_string(),
        created: 1,
        created_utc: 1,
        url: format!("https://example.com/{title}"),
        title: title.to_string(),
        score,
        downs: 0,
        ups: score,
        over_18: false,
        thumbnail: "".to_string(),
        preview_image_url: None,
    }
}

fn one_question_bank() -> QuestionBank {
    QuestionBank::new(vec![(QuestionId(7), submission("TheOnion", 50, "Headline"))]).unwrap()
}

fn config(count: u64, time: Option<u64>) -> GameConfiguration {
    GameConfiguration {
        count_of_questions: count,
        minimum_score_per_question: None,
        maximum_answer_time_per_question: time,
    }
}

fn register(game: &mut Game, bank: &QuestionBank, id: u128, name: &str, watch: bool) -> LobbyReaction {
    process_client_message(
        game,
        ToLobbyMessage::Register {
            player_id: PlayerId(id),
            name: PlayerName::from_str(name).unwrap(),
            just_watch: watch,
            register_type: if id == 1 { RegisterType::Creator } else { RegisterType::Joiner },
        },
        1_000,
        bank,
    )
    .unwrap()
}

fn act(game: &mut Game, bank: &QuestionBank, id: u128, message: ClientMessage, now: i64) -> LobbyReaction {
    process_client_message(
        game,
        ToLobbyMessage::ClientMessage { player_id: PlayerId(id), client_message: message },
        now,
        bank,
    )
    .unwrap()
}

fn points(game: &Game, id: u128) -> Option<u16> {
    game.players.iter().find(|p| p.id == PlayerId(id)).and_then(|p| match p.play_type {
        PlayType::Player { points } => Some(points),
        PlayType::Watcher => None,
    })
}

fn is_solution(game: &Game) -> bool {
    matches!(game.game_state, GameState::Playing { playing_state: PlayingState::Solution { .. }, .. })
}

fn is_question(game: &Game) -> bool {
    matches!(game.game_state, GameState::Playing { playing_state: PlayingState::Question { .. }, .. })
}

#[test]
fn full_round_majority_correct() {
    let bank = one_question_bank();
    let mut game = Game::new(config(1, None));
    register(&mut game, &bank, 1, "A", false);
    register(&mut game, &bank, 2, "B", false);
    register(&mut game, &bank, 3, "C", false);
    act(&mut game, &bank, 1, ClientMessage::StartGame, 2_000);
    assert!(is_question(&game));
    act(&mut game, &bank, 1, ClientMessage::ChooseAnswer(Answer::TheOnion), 3_000);
    act(&mut game, &bank, 2, ClientMessage::ChooseAnswer(Answer::TheOnion), 3_000);
    assert!(is_question(&game));
    act(&mut game, &bank, 3, ClientMessage::ChooseAnswer(Answer::NotTheOnion), 3_000);
    assert!(is_solution(&game));
    assert_eq!(points(&game, 1), Some(10));
    assert_eq!(points(&game, 2), Some(10));
    assert_eq!(points(&game, 3), Some(0));
    act(&mut game, &bank, 1, ClientMessage::RequestSkip, 4_000);
    act(&mut game, &bank, 2, ClientMessage::RequestSkip, 4_000);
    assert!(is_solution(&game));
    act(&mut game, &bank, 3, ClientMessage::RequestSkip, 4_000);
    match &game.game_state {
        GameState::Aftermath { ranked_players, .. } => {
            let summary: Vec<(u128, String, u16)> = ranked_players
                .iter()
                .map(|(id, name, p)| (id.0, name.clone().into_inner(), *p))
                .collect();
            assert_eq!(
                summary,
                vec![(1, "A".to_string(), 10), (2, "B".to_string(), 10), (3, "C".to_string(), 0)]
            );
            assert_eq!(ranking_places(ranked_players), vec![1, 1, 2]);
            assert_eq!(standings_order(ranked_players), vec![1, 0, 2]);
        }
        other => panic!("expected the aftermath, found {other:?}"),
    }
}

#[test]
fn minority_bonus() {
    let bank = one_question_bank();
    let mut game = Game::new(config(3, None));
    for (id, name) in [(1, "A"), (2, "B"), (3, "C"), (4, "D")] {
        register(&mut game, &bank, id, name, false);
    }
    act(&mut game, &bank, 1, ClientMessage::StartGame, 2_000);
    act(&mut game, &bank, 1, ClientMessage::ChooseAnswer(Answer::TheOnion), 3_000);
    act(&mut game, &bank, 2, ClientMessage::ChooseAnswer(Answer::NotTheOnion), 3_000);
    act(&mut game, &bank, 3, ClientMessage::ChooseAnswer(Answer::NotTheOnion), 3_000);
    act(&mut game, &bank, 4, ClientMessage::ChooseAnswer(Answer::NotTheOnion), 3_000);
    assert!(is_solution(&game));
    assert_eq!(points(&game, 1), Some(15));
    assert_eq!(points(&game, 2), Some(0));
    assert_eq!(points(&game, 3), Some(0));
    assert_eq!(points(&game, 4), Some(0));
}

#[test]
fn half_correct_gets_no_bonus() {
    let bank = one_question_bank();
    let mut game = Game::new(config(3, None));
    for (id, name) in [(1, "A"), (2, "B"), (3, "C"), (4, "D")] {
        register(&mut game, &bank, id, name, false);
    }
    act(&mut game, &bank, 1, ClientMessage::StartGame, 2_000);
    act(&mut game, &bank, 1, ClientMessage::ChooseAnswer(Answer::TheOnion), 3_000);
    act(&mut game, &bank, 2, ClientMessage::ChooseAnswer(Answer::TheOnion), 3_000);
    act(&mut game, &bank, 3, ClientMessage::ChooseAnswer(Answer::NotTheOnion), 3_000);
    act(&mut game, &bank, 4, ClientMessage::ChooseAnswer(Answer::NotTheOnion), 3_000);
    assert_eq!(points(&game, 1), Some(10));
    assert_eq!(points(&game, 2), Some(10));
}

#[test]
fn duplicate_name_rejected() {
    let bank = one_question_bank();
    let mut game = Game::new(config(1, None));
    register(&mut game, &bank, 1, "Alice", false);
    let reaction = register(&mut game, &bank, 2, "Alice", false);
    assert_eq!(
        reaction.deliveries,
        vec![Delivery::ToPlayer {
            player_id: PlayerId(2),
            message: FromLobbyMessage::PlayerNameAlreadyInUse
        }]
    );
    assert!(!reaction.exit);
    assert_eq!(game.players.len(), 1);
    assert_eq!(game.players[0].id, PlayerId(1));
}

#[test]
fn registration_acknowledges_and_broadcasts() {
    let bank = one_question_bank();
    let mut game = Game::new(config(1, None));
    let reaction = register(&mut game, &bank, 1, "Alice", false);
    assert_eq!(
        reaction.deliveries,
        vec![
            Delivery::ToPlayer { player_id: PlayerId(1), message: FromLobbyMessage::LobbyCreated },
            Delivery::ToEveryone { message: FromLobbyMessage::GameFullUpdate },
        ]
    );
    let reaction = register(&mut game, &bank, 2, "Bob", true);
    assert_eq!(
        reaction.deliveries[0],
        Delivery::ToPlayer { player_id: PlayerId(2), message: FromLobbyMessage::LobbyJoined }
    );
    assert_eq!(game.players[1].play_type, PlayType::Watcher);
}

#[test]
fn reregistration_replaces_entry() {
    let bank = one_question_bank();
    let mut game = Game::new(config(1, None));
    register(&mut game, &bank, 1, "Alice", false);
    register(&mut game, &bank, 2, "Bob", false);
    register(&mut game, &bank, 1, "Alicia", true);
    assert_eq!(game.players.len(), 2);
    assert_eq!(game.players[0].id, PlayerId(2));
    assert_eq!(game.players[1].id, PlayerId(1));
    assert_eq!(game.players[1].name.as_str(), "Alicia");
}

#[test]
fn timeout_driven_transition() {
    let bank = one_question_bank();
    let mut game = Game::new(config(1, Some(0)));
    register(&mut game, &bank, 1, "A", false);
    act(&mut game, &bank, 1, ClientMessage::StartGame, 5_000);
    assert!(is_question(&game));
    let quiet = process_client_message(&mut game, ToLobbyMessage::IntervalUpdate, 5_000, &bank).unwrap();
    assert!(quiet.deliveries.is_empty());
    assert!(is_question(&game));
    let tick = process_client_message(&mut game, ToLobbyMessage::IntervalUpdate, 5_001, &bank).unwrap();
    assert_eq!(tick.deliveries, vec![Delivery::ToEveryone { message: FromLobbyMessage::GameFullUpdate }]);
    assert!(is_solution(&game));
    assert_eq!(points(&game, 1), Some(0));
}

#[test]
fn answer_after_deadline_is_refused() {
    let bank = one_question_bank();
    let mut game = Game::new(config(1, Some(10)));
    register(&mut game, &bank, 1, "A", false);
    register(&mut game, &bank, 2, "B", false);
    act(&mut game, &bank, 1, ClientMessage::StartGame, 0);
    let late = act(&mut game, &bank, 1, ClientMessage::ChooseAnswer(Answer::TheOnion), 10_001);
    assert_eq!(
        late.deliveries,
        vec![Delivery::ToPlayer { player_id: PlayerId(1), message: FromLobbyMessage::AnswerNotInTimeLimit }]
    );
    assert!(is_question(&game));
    let in_time = act(&mut game, &bank, 2, ClientMessage::ChooseAnswer(Answer::TheOnion), 10_000);
    assert_eq!(in_time.deliveries.len(), 1);
}

#[test]
fn solution_deadline_moves_on() {
    let bank = QuestionBank::new(vec![
        (QuestionId(1), submission("theonion", 5, "One")),
        (QuestionId(2), submission("nottheonion", 5, "Two")),
    ])
    .unwrap();
    let mut game = Game::new(config(2, None));
    register(&mut game, &bank, 1, "A", false);
    act(&mut game, &bank, 1, ClientMessage::StartGame, 0);
    let first = match &game.game_state {
        GameState::Playing { current_question, .. } => current_question.question_id,
        _ => panic!("not playing"),
    };
    act(&mut game, &bank, 1, ClientMessage::ChooseAnswer(Answer::TheOnion), 1_000);
    assert!(is_solution(&game));
    process_client_message(&mut game, ToLobbyMessage::IntervalUpdate, 31_000, &bank).unwrap();
    assert!(is_solution(&game));
    process_client_message(&mut game, ToLobbyMessage::IntervalUpdate, 31_001, &bank).unwrap();
    match &game.game_state {
        GameState::Playing { previous_questions, current_question, .. } => {
            assert_eq!(previous_questions.len(), 1);
            assert_ne!(current_question.question_id, first);
            assert!(previous_questions.len() < 2);
        }
        other => panic!("expected the next question, found {other:?}"),
    }
}

#[test]
fn answering_twice_overwrites() {
    let bank = one_question_bank();
    let mut game = Game::new(config(1, None));
    register(&mut game, &bank, 1, "A", false);
    register(&mut game, &bank, 2, "B", false);
    act(&mut game, &bank, 1, ClientMessage::StartGame, 0);
    act(&mut game, &bank, 1, ClientMessage::ChooseAnswer(Answer::NotTheOnion), 1);
    act(&mut game, &bank, 1, ClientMessage::ChooseAnswer(Answer::TheOnion), 2);
    match &game.game_state {
        GameState::Playing { playing_state: PlayingState::Question { answers, .. }, .. } => {
            assert_eq!(answers.to_entries(), vec![(PlayerId(1), Answer::TheOnion)]);
        }
        other => panic!("expected the question, found {other:?}"),
    }
    act(&mut game, &bank, 2, ClientMessage::ChooseAnswer(Answer::NotTheOnion), 3);
    assert_eq!(points(&game, 1), Some(10));
    assert_eq!(points(&game, 2), Some(0));
}

#[test]
fn watchers_are_not_ranked() {
    let bank = one_question_bank();
    let mut game = Game::new(config(1, None));
    register(&mut game, &bank, 1, "A", false);
    register(&mut game, &bank, 2, "W", true);
    act(&mut game, &bank, 1, ClientMessage::StartGame, 0);
    act(&mut game, &bank, 2, ClientMessage::ChooseAnswer(Answer::TheOnion), 1);
    assert!(is_question(&game));
    act(&mut game, &bank, 1, ClientMessage::ChooseAnswer(Answer::TheOnion), 1);
    assert_eq!(points(&game, 2), None);
    act(&mut game, &bank, 1, ClientMessage::RequestSkip, 2);
    match &game.game_state {
        GameState::Aftermath { ranked_players, .. } => {
            assert_eq!(ranked_players.len(), 1);
            assert_eq!(ranked_players[0].0, PlayerId(1));
            assert_eq!(ranked_players[0].2, 10);
        }
        other => panic!("expected the aftermath, found {other:?}"),
    }
}

#[test]
fn restart_with_half_of_the_players() {
    let bank = one_question_bank();
    let mut game = Game::new(config(1, None));
    register(&mut game, &bank, 1, "A", false);
    register(&mut game, &bank, 2, "B", false);
    act(&mut game, &bank, 1, ClientMessage::StartGame, 0);
    act(&mut game, &bank, 1, ClientMessage::ChooseAnswer(Answer::TheOnion), 1);
    act(&mut game, &bank, 2, ClientMessage::ChooseAnswer(Answer::TheOnion), 1);
    act(&mut game, &bank, 1, ClientMessage::RequestSkip, 2);
    act(&mut game, &bank, 2, ClientMessage::RequestSkip, 2);
    assert!(matches!(game.game_state, GameState::Aftermath { .. }));
    let tick = process_client_message(&mut game, ToLobbyMessage::IntervalUpdate, 3, &bank).unwrap();
    assert!(tick.deliveries.is_empty());
    act(&mut game, &bank, 1, ClientMessage::RequestPlayAgain, 4);
    match &game.game_state {
        GameState::Playing { previous_questions, .. } => assert!(previous_questions.is_empty()),
        other => panic!("expected a new round, found {other:?}"),
    }
    assert_eq!(points(&game, 1), Some(10));
}

#[test]
fn out_of_phase_actions_are_ignored() {
    let bank = one_question_bank();
    let mut game = Game::new(config(1, None));
    register(&mut game, &bank, 1, "A", false);
    let before = game.clone();
    let r = act(&mut game, &bank, 1, ClientMessage::ChooseAnswer(Answer::TheOnion), 0);
    assert!(r.deliveries.is_empty());
    let r = act(&mut game, &bank, 1, ClientMessage::RequestSkip, 0);
    assert!(r.deliveries.is_empty());
    let r = act(&mut game, &bank, 1, ClientMessage::RequestPlayAgain, 0);
    assert!(r.deliveries.is_empty());
    assert_eq!(game, before);
    let r = act(&mut game, &bank, 1, ClientMessage::RequestFullUpdate, 0);
    assert_eq!(
        r.deliveries,
        vec![Delivery::ToPlayer { player_id: PlayerId(1), message: FromLobbyMessage::GameFullUpdate }]
    );
    act(&mut game, &bank, 1, ClientMessage::StartGame, 0);
    let playing = game.clone();
    let r = act(&mut game, &bank, 1, ClientMessage::StartGame, 0);
    assert!(r.deliveries.is_empty());
    assert_eq!(game, playing);
}

#[test]
fn last_disconnect_ends_the_room() {
    let bank = one_question_bank();
    let mut game = Game::new(config(1, None));
    register(&mut game, &bank, 1, "A", false);
    register(&mut game, &bank, 2, "B", false);
    let r = process_client_message(&mut game, ToLobbyMessage::Disconnect { player_id: PlayerId(1) }, 0, &bank)
        .unwrap();
    assert!(!r.exit);
    assert_eq!(r.deliveries, vec![Delivery::ToEveryone { message: FromLobbyMessage::GameFullUpdate }]);
    let r = process_client_message(&mut game, ToLobbyMessage::Disconnect { player_id: PlayerId(2) }, 0, &bank)
        .unwrap();
    assert!(r.exit);
    assert!(r.deliveries.is_empty());
    assert!(game.players.is_empty());
}

#[test]
fn disconnect_completes_the_question() {
    let bank = one_question_bank();
    let mut game = Game::new(config(1, None));
    register(&mut game, &bank, 1, "A", false);
    register(&mut game, &bank, 2, "B", false);
    act(&mut game, &bank, 1, ClientMessage::StartGame, 0);
    act(&mut game, &bank, 1, ClientMessage::ChooseAnswer(Answer::TheOnion), 1);
    assert!(is_question(&game));
    process_client_message(&mut game, ToLobbyMessage::Disconnect { player_id: PlayerId(2) }, 2, &bank).unwrap();
    assert!(is_solution(&game));
    assert_eq!(points(&game, 1), Some(10));
}

#[test]
fn empty_bank_fails_the_start() {
    let bank = QuestionBank::new(vec![]).unwrap();
    let mut game = Game::new(config(1, None));
    register(&mut game, &bank, 1, "A", false);
    let r = process_client_message(
        &mut game,
        ToLobbyMessage::ClientMessage { player_id: PlayerId(1), client_message: ClientMessage::StartGame },
        0,
        &bank,
    );
    assert!(r.is_err());
    assert!(matches!(game.game_state, GameState::InLobby));
}

#[test]
fn ranking_places_are_dense() {
    let ranked = vec![
        (PlayerId(1), PlayerName::from_str("A").unwrap(), 5),
        (PlayerId(2), PlayerName::from_str("B").unwrap(), 20),
        (PlayerId(3), PlayerName::from_str("C").unwrap(), 20),
        (PlayerId(4), PlayerName::from_str("D").unwrap(), 10),
        (PlayerId(5), PlayerName::from_str("E").unwrap(), 0),
    ];
    assert_eq!(ranking_places(&ranked), vec![3, 1, 1, 2, 4]);
    assert_eq!(ranking_places(&Vec::new()), Vec::<usize>::new());
    assert_eq!(standings_order(&ranked), vec![2, 1, 3, 0, 4]);
    assert_eq!(standings_order(&Vec::new()), Vec::<usize>::new());
}
