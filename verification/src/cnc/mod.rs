//! Command & Conquer title: dedicated pool, lobby/game roster and notification queue.

pub mod create_game;
pub mod dedicated_pool;
pub mod fireframe;
pub mod forms;
pub mod game_state;
pub mod hostnames;
pub mod browser;
pub mod lobby;
pub mod lobby_chat;
pub mod msgsys_routes;
pub mod queries;
pub mod reset;
pub mod requests;
pub mod routes;
pub mod shell;
