//! Core logic of the VaChat server: Matrix agent message conversion,
//! room and identifier handling, the Matrix bridge's sync, account and
//! encryption rules, authentication rate limiting, password hashing, the
//! user cache and its rules, the common settings and the configuration.

pub mod admin_system;
pub mod admin_user;
pub mod agent_convert;
pub mod auth;
pub mod bot_rooms;
pub mod config;
pub mod create_user;
pub mod crypto;
pub mod e2ee;
pub mod events;
pub mod files;
pub mod hexcode;
pub mod json;
pub mod jsontree;
pub mod keyed;
pub mod matrix_account;
pub mod members;
pub mod msgdb;
pub mod mutes;
pub mod num;
pub mod password;
pub mod pinned;
pub mod removal;
pub mod rooms;
pub mod server;
pub mod state;
pub mod stored;
pub mod sync;
pub mod text;
pub mod token;
