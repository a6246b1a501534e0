//! A mirror of the PLC directory: the log of the directory is fetched batch by
//! batch, its operations are stored, and the documents of the DIDs that follow
//! from them are served.

pub mod circuit;
pub mod clock;
pub mod database;
pub mod document;
pub mod holdings;
pub mod ident;
pub mod json;
pub mod listing;
pub mod models;
pub mod request;
pub mod scraper;
pub mod storage_keys;
pub mod store;
pub mod sync;
pub mod text;
pub mod web;
