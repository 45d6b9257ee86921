//! Favourite dog pictures: an append-only store of image addresses backed by
//! an embedded SQLite file, and the two operations offered to the interface.
pub mod service;
pub mod sqlite;
pub mod store;
