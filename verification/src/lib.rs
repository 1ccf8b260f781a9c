//! Turns email messages into dated events by matching configured regular
//! expression templates, and keeps the events in a store that holds one event
//! per identity key.

pub mod text;
pub mod string_map;
pub mod number;
pub mod pattern;
pub mod config;
pub mod email;
pub mod extraction;
pub mod events;
pub mod commands;
pub mod display;
