//! Requests, responses and events of Hyprland's sockets.
pub mod client;
pub mod event_listener;
pub mod lua_compat;
pub mod translation_laws;
