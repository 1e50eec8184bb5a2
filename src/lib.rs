//! Parsing of `netstat -rn` routing tables and longest-prefix route lookup.

pub mod address;
pub mod display;
pub mod entity;
pub mod flags;
pub mod route_entry;
pub mod routing_table;
pub mod text;

pub use entity::{Cidr, Destination, Entity, IpAddress, Protocol};
pub use flags::RoutingFlag;
pub use route_entry::RouteEntry;
pub use routing_table::RoutingTable;
