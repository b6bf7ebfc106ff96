//! Session persistence for the Hyprland compositor: which windows are tracked, how
//! they are saved, and how they are brought back.
pub mod cli;
pub mod collections;
pub mod config;
pub mod daemon;
pub mod ipc;
pub mod layout;
pub mod models;
pub mod paths;
pub mod patterns;
pub mod resolver;
pub mod restore;
pub mod snapshot;
pub mod snapshot_laws;
pub mod state;
pub mod state_laws;
pub mod text;
pub mod text_laws;
