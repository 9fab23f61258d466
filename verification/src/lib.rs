//! Multi-link transmission core: the wire header, link bookkeeping, reordering,
//! de-duplication and the link schedulers, with their contracts.

pub mod float_bits;
pub mod link_set;
pub mod packet;
pub mod technology;
pub mod link;
pub mod reorder;
pub mod stream;
pub mod transport;
pub mod scheduler;
pub mod application;
pub mod config;
pub mod external_measurement;
pub mod metric;
pub mod multilink;
pub mod network_interface;
