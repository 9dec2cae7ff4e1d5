//! A small addressable-store library: value-type addresses that compose,
//! a capability contract (read / write / list / insert / query) that a
//! backend may support per address type, a JSON path engine with precise
//! create/delete semantics, a depth-first tree walker, an address-filtering
//! store wrapper, and a fixed-window rate limiter.

pub mod address;
pub mod airtable;
pub mod cell;
pub mod filter_addresses;
pub mod fs;
pub mod indexed_vec;
pub mod json_store;
pub mod json_value;
pub mod location;
pub mod paths;
pub mod ratelimiter;
pub mod store;
pub mod traverse;
pub mod walk;
