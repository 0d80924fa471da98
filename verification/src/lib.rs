//! Goal and achievement tracking for games: the rules that decide which
//! achievements become goals, which games count as complete or perfected,
//! how stored rows are read back, and how the game lists are filtered and
//! ordered.

pub mod text;
pub mod json;
pub mod time;
pub mod steam_db;
pub mod goals;
pub mod module;
pub mod steam_api;
pub mod achievements;
pub mod game_targets;
pub mod game_cover;
pub mod sort;
pub mod mtga_db;
pub mod mtga_log;
pub mod mtga_utils;
pub mod ui;
pub mod app_state;
pub mod ui_laws;
