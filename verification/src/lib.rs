//! Combat logs of World of Warcraft: tailing a log live, uploading reports, and
//! splitting and archiving log files. What waits for files, the site or the clock is
//! a state machine here: each answer is an event, and the machine says what to do
//! next.

pub mod archive;
pub mod chunk;
pub mod clock;
pub mod discover;
pub mod fights;
pub mod journal;
pub mod json;
pub mod listing;
pub mod messages;
pub mod names;
pub mod numbers;
pub mod pattern;
pub mod report;
pub mod report_laws;
pub mod retry;
pub mod session;
pub mod split;
pub mod tail;
pub mod tail_laws;
pub mod tail_runs;
pub mod text;
pub mod uploader;
pub mod uploader_laws;
