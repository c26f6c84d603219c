//! A developer journal: entries written per day, an editor buffer with a
//! cursor, a year/month/day tree for navigation, and the rules that turn
//! keystrokes, files and events into state.

pub mod text;
pub mod sorted;
pub mod app;
pub mod dates;
pub mod markdown;
pub mod time;
pub mod annotations;
pub mod entry;
pub mod data;
pub mod navigation;
pub mod cli;
pub mod storage;
pub mod config;
pub mod sync;
pub mod models;
pub mod ai;
