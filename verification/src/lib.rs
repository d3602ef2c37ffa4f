//! Verified core of a terminal chat front end: markdown layout, transcript
//! state, message wrapping and the decisions the event loop takes.

pub mod cli;
pub mod markdown;
pub mod provider;
pub mod read_image;
pub mod render;
pub mod runtime;
pub mod state;
pub mod style;
pub mod text;
pub mod tool_search;
pub mod transcript;
pub mod ui;
pub mod wrap;
