//! The timeline of a session: what happened, and the transcript and the summary
//! made of it.

pub mod event;
pub mod render;
pub mod summary;
