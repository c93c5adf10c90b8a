//! Command-side worker of an event-sourced CQRS client: handler and aggregate
//! registries, projection reconstruction with a bounded cache, the command
//! pipeline and the decisions of the bidirectional stream driver.

pub mod named_map;
pub mod error;
pub mod cache;
pub mod handler_registry;
pub mod messages;
pub mod sourcing;
pub mod aggregate;
pub mod emitted;
pub mod aggregate_registry;
pub mod stream_driver;
