//! Core of a publication-feed bot: identifier codec, subject catalog,
//! relational persistence with per-subject watermarks, and the
//! synchronization cycle that ties them together.

pub mod content;
pub mod db;
pub mod digits;
pub mod errors;
pub mod index;
pub mod metadata;
pub mod pin;
pub mod scraper;
pub mod strutil;
pub mod subject;
pub mod sync;
pub mod times;
