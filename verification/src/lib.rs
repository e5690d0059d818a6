//! Keeps a directory of symbolic links in step with a remote inventory of
//! game servers, and works out which directories a group must be able to
//! traverse to follow those links.
//!
//! The library decides and the caller acts: callers gather facts about the
//! file system and the remote panel, hand them over as plain values, and
//! carry out the plans that come back. Only the system's user database is
//! read from here.

pub mod text;
pub mod names;
pub mod json;
pub mod inventory;
pub mod links;
pub mod commands;
pub mod accounts;
pub mod membership;
pub mod startup;
pub mod config;
pub mod access;
