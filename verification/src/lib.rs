//! A local game library manager for the itch.io content-distribution API.
//!
//! The crate holds the decision core of the manager: the manifest of
//! installed games and its on-disk document format, the rule that picks the
//! latest installable upload of a game, the search that locates the
//! executable inside an unpacked game directory, and the state machine that
//! drives an "ensure installed, then launch" cycle.  All I/O (HTTP calls to
//! the catalog, file transfer, archive extraction, prompts) lives outside
//! this crate and feeds plain values into these functions.

pub mod api;
pub mod codec;
pub mod error;
pub mod game;
pub mod install;
pub mod library;
pub mod numbers;
pub mod oracle;
pub mod resolver;
pub mod text;

pub use error::DownloadError;
