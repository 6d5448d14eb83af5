//! Ingestion core for daily exchange-wide trade summaries: the day cursor,
//! payload validation, schema-tolerant row mapping, an idempotent store model
//! and the backfill state machine, each with a machine-checked contract.

pub mod archive;
pub mod backfill;
pub mod day;
pub mod display;
pub mod fetch;
pub mod historical;
pub mod mapper;
pub mod models;
pub mod navigation;
pub mod number;
pub mod progress;
pub mod reconcile;
pub mod record;
pub mod scheduler;
pub mod store;
pub mod symbols;
pub mod table;
pub mod text;
pub mod windows;
