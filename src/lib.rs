//! Game-room logic for a real-time true/false trivia party game: players
//! gather in a lobby behind an invite code, answer questions under time
//! pressure and see a ranking at the end.

pub mod text;
pub mod model;
pub mod tables;
pub mod question_bank;
pub mod rules;
pub mod lobby;
pub mod laws;
pub mod registry;
pub mod ranking;
pub mod network;
pub mod connection;
