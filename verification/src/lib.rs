//! The event handler of a key remapper.

pub mod action;
pub mod config;
pub mod event;
pub mod event_handler;
pub mod filters;
pub mod key_set;
pub mod keymap_action;
pub mod keys;
pub mod laws;
pub mod model;
pub mod multi_purpose;
pub mod outside;
