//! Per-group location rankings.
//!
//! Each fulfillment group gets exactly one ranking operation covering its
//! candidate location handles in their given order. When the group's lines
//! resolve a preferred handle, that handle ranks 0 and every other handle
//! ranks 1; with no resolvable preference every handle ranks 0.

use vstd::prelude::*;
use crate::index::{LocationIndex, index_map, build_location_index};
use crate::model::{
    CartFulfillmentGroupsLocationRankingsGenerateRunResult, CartLine, FulfillmentGroup,
    FulfillmentGroupLocationRankingAddOperation, Location, Operation, RankedLocation,
};
use crate::scan::{line_preference, resolve_line_preference};
use crate::text::str_eq;

verus! {

/// The handle a group asks for: the first of its lines whose request
/// resolves wins; later lines are not consulted.
pub open spec fn group_preference(lines: Seq<CartLine>, index: Map<u64, Seq<char>>) -> Option<
    Seq<char>,
>
    decreases lines.len(),
{
    if lines.len() == 0 {
        None
    } else {
        match line_preference(lines[0], index) {
            Some(h) => Some(h),
            None => group_preference(lines.drop_first(), index),
        }
    }
}

/// The rank a candidate handle gets under a resolved preference: 0 with no
/// preference or for the preferred handle itself, 1 otherwise.
pub open spec fn rank_for(handle: Seq<char>, preference: Option<Seq<char>>) -> int {
    match preference {
        None => 0,
        Some(p) => if handle == p {
            0
        } else {
            1
        },
    }
}

/// One ranking operation for `group`: its handle, and one ranked entry per
/// candidate location handle, in their given order.
pub open spec fn ranking_ok(op: Operation, group: FulfillmentGroup, index: Map<u64, Seq<char>>) -> bool {
    let pref = group_preference(group.lines@, index);
    match op {
        Operation::FulfillmentGroupLocationRankingAdd(r) => {
            &&& r.fulfillment_group_handle@ == group.handle@
            &&& r.rankings@.len() == group.inventory_location_handles@.len()
            &&& forall|j: int|
                0 <= j < r.rankings@.len() ==> (#[trigger] r.rankings@[j]).location_handle@
                    == group.inventory_location_handles@[j]@ && r.rankings@[j].rank as int
                    == rank_for(group.inventory_location_handles@[j]@, pref)
        },
        Operation::DeliverableLinesMustFulfillFromSameLocationAdd(_) => false,
    }
}

/// Everything the rankings function promises: exactly one ranking operation
/// per input group, in input order.
pub open spec fn rankings_result_ok(
    result: CartFulfillmentGroupsLocationRankingsGenerateRunResult,
    groups: Seq<FulfillmentGroup>,
    index: Map<u64, Seq<char>>,
) -> bool {
    &&& result.operations@.len() == groups.len()
    &&& forall|g: int|
        0 <= g < groups.len() ==> ranking_ok(#[trigger] result.operations@[g], groups[g], index)
}

/// Resolve a group's preferred handle: scan its lines in order and take the
/// first request that resolves.
#[verifier::loop_isolation(false)]
pub fn resolve_group_preference(lines: &Vec<CartLine>, index: &LocationIndex) -> (r: Option<
    String,
>)
    ensures
        match r {
            Some(h) => group_preference(lines@, index@) == Some(h@),
            None => group_preference(lines@, index@) is None,
        },
{
    let n = lines.len();
    let mut i: usize = 0;
    proof {
        assert(lines@.skip(0) =~= lines@);
    }
    while i < n
        invariant
            i <= n,
            group_preference(lines@, index@) == group_preference(lines@.skip(i as int), index@),
        decreases n - i,
    {
        let line = &lines[i];
        proof {
            assert(lines@.skip(i as int)[0] == lines@[i as int]);
            assert(lines@.skip(i as int).drop_first() =~= lines@.skip(i as int + 1));
        }
        match resolve_line_preference(line, index) {
            Some(h) => {
                return Some(h);
            },
            None => {},
        }
        i = i + 1;
    }
    proof {
        assert(lines@.skip(n as int) =~= Seq::<CartLine>::empty());
    }
    None
}

/// Rank each group's candidate locations, preferring the handle its lines
/// ask for, and emit one ranking operation per group.
#[verifier::loop_isolation(false)]
pub fn cart_fulfillment_groups_location_rankings_generate_run(
    fulfillment_groups: &Vec<FulfillmentGroup>,
    locations: &Vec<Location>,
) -> (result: CartFulfillmentGroupsLocationRankingsGenerateRunResult)
    ensures
        rankings_result_ok(result, fulfillment_groups@, index_map(locations@)),
{
    let index = build_location_index(locations);
    let mut operations: Vec<Operation> = Vec::new();
    let gn = fulfillment_groups.len();
    let mut g: usize = 0;
    while g < gn
        invariant
            g <= gn,
            operations@.len() == g,
            forall|l: int|
                0 <= l < g ==> ranking_ok(
                    #[trigger] operations@[l],
                    fulfillment_groups@[l],
                    index_map(locations@),
                ),
        decreases gn - g,
    {
        let group = &fulfillment_groups[g];
        let pref = resolve_group_preference(&group.lines, &index);
        let ghost gpref = group_preference(group.lines@, index@);
        let hn = group.inventory_location_handles.len();
        let mut rankings: Vec<RankedLocation> = Vec::new();
        let mut j: usize = 0;
        while j < hn
            invariant
                j <= hn,
                rankings@.len() == j,
                forall|l: int|
                    0 <= l < j ==> (#[trigger] rankings@[l]).location_handle@
                        == group.inventory_location_handles@[l]@ && rankings@[l].rank as int
                        == rank_for(group.inventory_location_handles@[l]@, gpref),
            decreases hn - j,
        {
            let handle = &group.inventory_location_handles[j];
            let rank: i64 = match &pref {
                Some(p) => if str_eq(handle.as_str(), p.as_str()) {
                    0
                } else {
                    1
                },
                None => 0,
            };
            rankings.push(RankedLocation { location_handle: handle.clone(), rank });
            j = j + 1;
        }
        operations.push(
            Operation::FulfillmentGroupLocationRankingAdd(
                FulfillmentGroupLocationRankingAddOperation {
                    fulfillment_group_handle: group.handle.clone(),
                    rankings,
                },
            ),
        );
        g = g + 1;
    }
    CartFulfillmentGroupsLocationRankingsGenerateRunResult { operations }
}

} // verus!
