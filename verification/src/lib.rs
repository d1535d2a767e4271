//! A keyboard-driven project launcher's logic: fuzzy search over recent and pinned
//! projects, the picker's state and key handling, directory completion, icon choice,
//! and the daemon's command protocol.

pub mod text;
pub mod projects;
pub mod paths;
pub mod app;
pub mod rows;
pub mod icons;
pub mod terminal;
pub mod daemon;
pub mod cli;
pub mod store;
