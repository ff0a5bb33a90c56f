//! Role and rank reconciliation for a community server's moderation bot.
//!
//! The library decides, from a member's current roles and a request, which
//! roles the member should hold afterwards and which side effects are owed
//! (reaction cleanup, a one-time greeting). Talking to the chat platform is
//! left to the caller.
pub mod commands;
pub mod config;
pub mod handler;
pub mod persist;
pub mod roles;
pub mod text;
