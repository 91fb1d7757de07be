//! Core of a scheduled mail-forwarding batch job: it decides which remote
//! messages are new relative to the persisted records, extracts the fields and
//! HTML payload of each fetched message, accounts for the rendered PDF
//! artifacts, and tracks which records have been delivered to the chat.
//!
//! All network, browser, database and filesystem work lives outside this
//! crate; the functions here take the outcomes of that work as plain values
//! and make every decision of the pipeline, with verified contracts.

pub mod db;
pub mod decimal;
pub mod gmail;
pub mod pdf;
pub mod telegram;
