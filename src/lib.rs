//! A pledge ledger: validated pledges of hours per country, per-country
//! aggregates, and a bounded feed of the most recent pledges.
//!
//! - `model`: the ledger's state as mathematics, what a pledge does to it,
//!   and what the summary and the recent feed make of it.
//! - `laws`: what holds across calls, proved over the model.
//! - `catalog`: the fixed catalog of countries and its lookups.
//! - `pledge`: the checks a pledge passes before it is written.
//! - `memory`: a store held in memory that follows the model.
//! - `store` and `kv`: the layout of the ledger in a key-value store, the
//!   commands sent to it, the reading of its replies, and the proof that
//!   both match the model.
//! - `aggregate`, `decimal`, `api`, `config`: lines of the read paths,
//!   decimal text, the request boundary, settings.

pub mod decimal;
pub mod catalog;
pub mod model;
pub mod pledge;
pub mod aggregate;
pub mod memory;
pub mod laws;
pub mod store;
pub mod kv;
pub mod api;
pub mod config;
