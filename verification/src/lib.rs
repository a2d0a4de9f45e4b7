//! A terminal metronome: command-line configuration, tap-tempo estimation
//! and the layout of its terminal screens.

pub mod cli;
pub mod footer;
pub mod layout;
pub mod parse;
pub mod tap;
pub mod text;
pub mod track;
pub mod ui;
