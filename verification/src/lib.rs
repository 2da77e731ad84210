//! An append-only record store: a counter plus an ordered list of
//! user-submitted URLs, each tagged with the identity of its submitter.
//!
//! The store lives inside a byte region of fixed capacity, reserved when the
//! account is created. `store` holds the data model and the two state
//! transitions (initialize an account, append one record); `codec` holds the
//! byte-level encoding used to persist a store in its region and to measure
//! it against the region's capacity.

pub mod codec;
pub mod store;
