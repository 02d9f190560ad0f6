//! A replica of one exchange symbol's order book and recent trades,
//! folded from an incremental market-data stream.
//!
//! Prices and quantities are fixed-point integers throughout ([`fixed`]).
//! A [`ladder`] holds one side of a book; [`sides`] pairs a bid ladder with
//! an ask ladder and states the rule for one level update, uncrossing
//! included. The engine in [`book`] keeps the consolidated book, one book
//! per named sub-stream and the sampled trade log of [`trades`], and
//! [`snapshot`] reads a bounded-depth view off a ladder. The messages of
//! the feed are in [`wire`], and [`ingest`] decides how each changes the
//! state and what a session does next.

pub mod book;
pub mod fixed;
pub mod formats;
pub mod ingest;
pub mod ladder;
pub mod sides;
pub mod snapshot;
pub mod trades;
pub mod wire;
