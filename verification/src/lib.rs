//! Verified core of a watcher for Codex CLI rate limits, which sends a Telegram message the moment
//! a limit refills to 100% available.
//!
//! The watcher polls an app-server (`handshake`, `codex`), compares what it reads with what it saw
//! last (`reconcile`, `state`) and words a notification for each limit that has been refilled
//! (`message`, `telegram`). `config` and `dotenv` read its configuration.

pub mod by_key;
pub mod codex;
pub mod config;
pub mod dotenv;
pub mod handshake;
pub mod json;
pub mod message;
pub mod percent;
pub mod reconcile;
pub mod state;
pub mod telegram;
pub mod text;
pub mod text_map;
