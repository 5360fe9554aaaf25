//! Allocation of the monthly cost of shared Kafka services to the teams that
//! use them, in proportion to the bytes that their topics hold.
//!
//! - `usage` folds the partitions of a service's topics into bytes per team;
//! - `allocate` shares a service's base and tiered-storage costs among its teams;
//! - `classify` drops rows whose team name is an internal Kafka topic;
//! - `transform` runs these over the Kafka lines of the invoices;
//! - `watermark` finds the latest paid period and the invoices after it;
//! - `warehouse` writes rows as the warehouse table stores them.
//!
//! Money is exact: a decimal amount (`amount`) times an exact share of it,
//! written with two decimals only in the warehouse row; `natural` holds the
//! numbers of any size that this takes. Periods are calendar months (`period`).

pub mod aiven;
pub mod allocate;
pub mod amount;
pub mod classify;
pub mod config;
pub mod natural;
pub mod period;
pub mod tags;
pub mod text;
pub mod topic;
pub mod transform;
pub mod usage;
pub mod warehouse;
pub mod watermark;
