//! Verified core of a multiplexed, resumable HTTP range downloader.
pub mod text;
pub mod state;
pub mod writer;
pub mod circuit;
pub mod tor;
pub mod probe;
pub mod digest;
pub mod events;
pub mod session;
