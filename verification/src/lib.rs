//! Storage rules of an uptime monitor: targets, check results, incidents,
//! notification channels, organisations and the text they send out. Everything
//! here is a function of plain values with a proved contract, but for small
//! wrappers around other crates, whose contracts are taken on trust; the
//! database, the clock's reader and the network live around it.

pub mod collections;
pub mod crypto;
pub mod domain;
pub mod error;
pub mod ids;
pub mod incident;
pub mod json;
pub mod storage;
pub mod strings;
pub mod table;
pub mod target;
pub mod telegram;
pub mod text;
pub mod time;
