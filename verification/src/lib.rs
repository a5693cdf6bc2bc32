//! Plinko's verified core: text editing, dirty-region tracking, request
//! parsing, authentication rules and calendar navigation.

pub mod auth;
pub mod calendar;
pub mod cli;
pub mod dirty;
pub mod editing;
pub mod multi_line_input;
pub mod server;
pub mod static_files;
pub mod status;
pub mod tags;
pub mod text_input;
pub mod utf8_text;
