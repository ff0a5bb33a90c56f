//! The commands that change a member's roles on request.
pub mod admin;
pub mod owner;
