//! The rules of a desktop monitor for Codex workspaces.

pub mod assoc;
pub mod git;
pub mod handshake;
pub mod json;
pub mod monitor;
pub mod requests;
pub mod session;
pub mod text;
pub mod wire;
pub mod workspace;
