//! Decision logic for routing cart lines to inventory locations.
//!
//! Two entry points mirror the two host-invoked functions: one emits
//! constraints forcing lines that request the same location to be fulfilled
//! together, the other ranks a fulfillment group's candidate locations so a
//! requested location is preferred. Both resolve a requested numeric location
//! id, carried in a `_Location ID` line attribute, through an index built
//! from the known locations.

pub mod constraints;
pub mod gid;
pub mod index;
pub mod laws;
pub mod model;
pub mod rankings;
pub mod scan;
pub mod text;
