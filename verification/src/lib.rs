//! Rules, rooms and turn keeping for the dice games Bones and Farkle.

pub mod bank_laws;
pub mod chance;
pub mod clock;
pub mod game;
pub mod game_laws;
pub mod goal_laws;
pub mod hub;
pub mod hub_laws;
pub mod hub_model;
pub mod hub_progress;
pub mod ids;
pub mod play_laws;
pub mod protocol;
pub mod report;
pub mod requests;
pub mod room_laws;
pub mod room_model;
pub mod rooms;
pub mod scoring;
pub mod scoring_laws;
pub mod seat_laws;
pub mod session;
pub mod site;
pub mod step_laws;
pub mod store;
pub mod text;
pub mod text_laws;
pub mod word_laws;
pub mod worth;
