//! The data both functions work over: the host-supplied locations, cart
//! lines and fulfillment groups, and the operations handed back.

use vstd::prelude::*;

verus! {

/// A known inventory location: a global identifier ending in a numeric id,
/// and a human-readable handle.
#[derive(Clone, Debug, PartialEq, Eq)]
pub struct Location {
    pub id: String,
    pub handle: String,
}

/// A key/value attribute attached to a cart line.
#[derive(Clone, Debug, PartialEq, Eq)]
pub struct Attribute {
    pub key: String,
    pub value: Option<String>,
}

/// One deliverable cart line, with its optional routing attribute.
#[derive(Clone, Debug, PartialEq, Eq)]
pub struct CartLine {
    pub id: String,
    pub attribute: Option<Attribute>,
}

/// The cart: the deliverable lines the constraints function scans.
#[derive(Clone, Debug, PartialEq, Eq)]
pub struct Cart {
    pub deliverable_lines: Vec<CartLine>,
}

/// A set of cart lines fulfilled together, with its candidate locations.
#[derive(Clone, Debug, PartialEq, Eq)]
pub struct FulfillmentGroup {
    pub handle: String,
    pub lines: Vec<CartLine>,
    pub inventory_location_handles: Vec<String>,
}

/// One candidate location of a group with its priority; rank 0 is highest.
#[derive(Clone, Debug, PartialEq, Eq)]
pub struct RankedLocation {
    pub location_handle: String,
    pub rank: i64,
}

/// Constraint forcing the listed lines to ship from one location.
#[derive(Clone, Debug, PartialEq, Eq)]
pub struct DeliverableLinesMustFulfillFromSameLocationAddOperation {
    pub deliverable_line_ids: Option<Vec<String>>,
}

/// Ranking of one group's candidate locations.
#[derive(Clone, Debug, PartialEq, Eq)]
pub struct FulfillmentGroupLocationRankingAddOperation {
    pub fulfillment_group_handle: String,
    pub rankings: Vec<RankedLocation>,
}

/// The two kinds of operation the functions emit.
#[derive(Clone, Debug, PartialEq, Eq)]
pub enum Operation {
    DeliverableLinesMustFulfillFromSameLocationAdd(
        DeliverableLinesMustFulfillFromSameLocationAddOperation,
    ),
    FulfillmentGroupLocationRankingAdd(FulfillmentGroupLocationRankingAddOperation),
}

/// What the constraints function returns to the host.
#[derive(Clone, Debug, PartialEq, Eq)]
pub struct CartFulfillmentConstraintsGenerateRunResult {
    pub operations: Vec<Operation>,
}

/// What the rankings function returns to the host.
#[derive(Clone, Debug, PartialEq, Eq)]
pub struct CartFulfillmentGroupsLocationRankingsGenerateRunResult {
    pub operations: Vec<Operation>,
}

} // verus!
