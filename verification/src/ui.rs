//! The state of the terminal front end, how keys change it, and what it shows.

pub mod app;
pub mod event;
pub mod input;
pub mod ui;
