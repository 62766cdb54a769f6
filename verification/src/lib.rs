//! Agenda records, the two ways of collecting them, and their rendering as
//! an HTML table fragment.
pub mod text;
pub mod record;
pub mod comments;
pub mod ingest;
pub mod render;
pub mod prompt;
pub mod cli;
