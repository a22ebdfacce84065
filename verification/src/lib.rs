//! Bookmarks for interactive terminal sessions: an ordered store of session
//! records, the rules that turn what a user typed into one record, the
//! handoff to the program that resumes a session, and the requests of the
//! local dashboard.

pub mod cli;
mod clock;
pub mod dashboard;
pub mod handoff;
pub mod json;
pub mod laws;
pub mod matcher;
pub mod position;
pub mod render;
pub mod resolve;
pub mod session;
pub mod store;
pub mod text;
