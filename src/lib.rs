//! Normalised event model, two-way identifier lookup and per-backend decision
//! logic for a multi-backend chat client.
pub mod bimap;
pub mod conn;
pub mod cursor_vec;
pub mod discord_conn;
pub mod slack_conn;
pub mod text;
