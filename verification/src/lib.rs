//! The core of a service that keeps a catalog of mods in step with a feed
//! and shows it to users who rate the mods.
//!
//! - `mods`: the catalog's records, when the catalog is due for a refresh,
//!   how a record of the feed becomes a row, and the stages of one import.
//! - `tables`: what the store holds, as mathematical values; what an import,
//!   a rating and the browsing query mean; and what holds of them whatever
//!   the catalog is.
//! - `db`: the store's tables held in memory, operation by operation.
//! - `statements`, `sql`: the statements that a store in Postgres is sent
//!   for the same operations, built with `sqlx`.
//! - `env`: the configuration.
//! - `services`, `middlewares`: what the pages and their guards decide.
//! - `timestamps`, `ids`, `text`, `chunks`: instants and dates, mod
//!   identifiers, texts, and the cutting of lists into chunks.

pub mod chunks;
pub mod db;
pub mod env;
pub mod ids;
pub mod middlewares;
pub mod mods;
pub mod services;
pub mod sql;
pub mod statements;
pub mod tables;
pub mod text;
pub mod timestamps;
