//! Combat-log analytics: line parsing, sliding-window rate computation,
//! incremental log tailing and deterministic replay.

pub mod alerts;
pub mod analysis;
pub mod bookmark_store;
pub mod bookmarks;
pub mod chatlog;
pub mod datetime;
pub mod discovery;
pub mod inline_bookmarks;
pub mod markup;
pub mod model;
pub mod numbers;
pub mod parser;
pub mod ratemap;
pub mod replay;
pub mod state;
pub mod tail;
pub mod text;
