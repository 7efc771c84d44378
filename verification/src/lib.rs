//! Importing transcripts of other coding agents, and deciding what to do about an interrupted
//! network connection.

pub mod budget;
pub mod error;
pub mod external_resume;
pub mod import;
pub mod json;
pub mod message;
pub mod network_retry;
pub mod order;
pub mod streaming;
pub mod text;
pub mod time;
