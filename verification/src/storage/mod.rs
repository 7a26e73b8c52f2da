//! Stores and the rules they keep.

pub mod admin;
pub mod channel_link_codes;
pub mod clickhouse;
pub mod disposable_domains;
pub mod domain_expiry_state;
pub mod heartbeats;
pub mod incident_ops;
pub mod incident_rows;
pub mod incidents;
pub mod locks;
pub mod maintenance;
pub mod memory;
pub mod notification_channels;
pub mod org_ttl;
pub mod orgs;
pub mod page_assets;
pub mod partitions;
pub mod postgres;
pub mod postgres_secrets;
pub mod postmortems;
pub mod silence;
pub mod telegram_link_codes;
pub mod traits;
pub mod variables;
