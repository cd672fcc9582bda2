//! Force-same-location constraints.
//!
//! Cart lines may ask for a location through a `_Location ID` attribute.
//! Lines whose requested id resolves through the location index are grouped
//! by the resolved handle, and each group becomes one constraint operation
//! forcing its lines to be fulfilled from a single location.

use vstd::prelude::*;
use crate::index::{LocationIndex, index_map, build_location_index};
use crate::model::{
    Cart, CartFulfillmentConstraintsGenerateRunResult, CartLine,
    DeliverableLinesMustFulfillFromSameLocationAddOperation, Location, Operation,
};
use crate::scan::{line_preference, resolve_line_preference};
use crate::text::clone_string_vec;

verus! {

/// The distinct handles that lines ask for, in first-seen order.
pub open spec fn preferred_handles(lines: Seq<CartLine>, index: Map<u64, Seq<char>>) -> Seq<
    Seq<char>,
>
    decreases lines.len(),
{
    if lines.len() == 0 {
        Seq::empty()
    } else {
        let pre = preferred_handles(lines.drop_last(), index);
        match line_preference(lines.last(), index) {
            None => pre,
            Some(h) => if pre.contains(h) {
                pre
            } else {
                pre.push(h)
            },
        }
    }
}

/// The ids of the lines that ask for `handle`, in input order.
pub open spec fn group_line_ids(
    lines: Seq<CartLine>,
    index: Map<u64, Seq<char>>,
    handle: Seq<char>,
) -> Seq<Seq<char>>
    decreases lines.len(),
{
    if lines.len() == 0 {
        Seq::empty()
    } else {
        let pre = group_line_ids(lines.drop_last(), index, handle);
        if line_preference(lines.last(), index) == Some(handle) {
            pre.push(lines.last().id@)
        } else {
            pre
        }
    }
}

/// A handle is grouped exactly when some line asks for it.
pub proof fn lemma_preferred_handles_complete(
    lines: Seq<CartLine>,
    index: Map<u64, Seq<char>>,
    handle: Seq<char>,
)
    ensures
        preferred_handles(lines, index).contains(handle) <==> (exists|i: int|
            0 <= i < lines.len() && line_preference(lines[i], index) == Some(handle)),
    decreases lines.len(),
{
    if lines.len() > 0 {
        lemma_preferred_handles_complete(lines.drop_last(), index, handle);
        let pre = preferred_handles(lines.drop_last(), index);
        assert(forall|i: int| 0 <= i < lines.len() - 1 ==> lines.drop_last()[i] == lines[i]);
        if preferred_handles(lines, index).contains(handle) {
            let k = choose|k: int|
                0 <= k < preferred_handles(lines, index).len() && preferred_handles(
                    lines,
                    index,
                )[k] == handle;
            if k < pre.len() {
                assert(pre.contains(handle));
            } else {
                assert(line_preference(lines[lines.len() - 1], index) == Some(handle));
            }
        }
        if exists|i: int|
            0 <= i < lines.len() && line_preference(lines[i], index) == Some(handle) {
            let i = choose|i: int|
                0 <= i < lines.len() && line_preference(lines[i], index) == Some(handle);
            if i < lines.len() - 1 {
                assert(line_preference(lines.drop_last()[i], index) == Some(handle));
                assert(pre.contains(handle));
                if line_preference(lines.last(), index) matches Some(h) && !pre.contains(h) {
                    let k = choose|k: int| 0 <= k < pre.len() && pre[k] == handle;
                    assert(preferred_handles(lines, index)[k] == handle);
                }
                assert(preferred_handles(lines, index).contains(handle));
            } else {
                match line_preference(lines.last(), index) {
                    Some(h) => {
                        if pre.contains(h) {
                            assert(preferred_handles(lines, index).contains(handle));
                        } else {
                            assert(preferred_handles(lines, index)[pre.len() as int] == handle);
                            assert(preferred_handles(lines, index).contains(handle));
                        }
                    },
                    None => {},
                }
            }
        }
    }
}

/// A group is empty exactly when no line asks for its handle.
pub proof fn lemma_group_line_ids_empty(
    lines: Seq<CartLine>,
    index: Map<u64, Seq<char>>,
    handle: Seq<char>,
)
    ensures
        (group_line_ids(lines, index, handle).len() == 0) <==> (forall|i: int|
            0 <= i < lines.len() ==> line_preference(lines[i], index) != Some(handle)),
    decreases lines.len(),
{
    if lines.len() > 0 {
        lemma_group_line_ids_empty(lines.drop_last(), index, handle);
        assert(forall|i: int| 0 <= i < lines.len() - 1 ==> lines.drop_last()[i] == lines[i]);
    }
}

/// One constraint operation carrying exactly the line ids `ids`.
pub open spec fn operation_groups_lines(op: Operation, ids: Seq<Seq<char>>) -> bool {
    match op {
        Operation::DeliverableLinesMustFulfillFromSameLocationAdd(c) => match c
            .deliverable_line_ids {
            Some(v) => v.deep_view() == ids && v@.len() >= 1,
            None => false,
        },
        Operation::FulfillmentGroupLocationRankingAdd(_) => false,
    }
}

/// Everything the constraints function promises: one operation per handle
/// that some line asks for, in first-seen order, each carrying the ids of
/// exactly the lines that ask for that handle, in input order.
pub open spec fn constraints_result_ok(
    result: CartFulfillmentConstraintsGenerateRunResult,
    lines: Seq<CartLine>,
    index: Map<u64, Seq<char>>,
) -> bool {
    let handles = preferred_handles(lines, index);
    &&& result.operations@.len() == handles.len()
    &&& forall|k: int|
        0 <= k < handles.len() ==> operation_groups_lines(
            #[trigger] result.operations@[k],
            group_line_ids(lines, index, handles[k]),
        )
}

/// Group the cart's lines by the location handle they ask for and emit one
/// force-same-location constraint per group.
#[verifier::loop_isolation(false)]
pub fn cart_fulfillment_constraints_generate_run(cart: &Cart, locations: &Vec<Location>) -> (result:
    CartFulfillmentConstraintsGenerateRunResult)
    ensures
        constraints_result_ok(result, cart.deliverable_lines@, index_map(locations@)),
{
    let index = build_location_index(locations);
    let ghost m = index_map(locations@);
    let ghost lines = cart.deliverable_lines@;
    let mut handles: Vec<String> = Vec::new();
    let mut members: Vec<Vec<String>> = Vec::new();
    let n = cart.deliverable_lines.len();
    let mut i: usize = 0;
    while i < n
        invariant
            i <= n,
            handles@.len() == members@.len(),
            handles@.len() == preferred_handles(lines.take(i as int), m).len(),
            forall|k: int|
                0 <= k < handles@.len() ==> (#[trigger] handles@[k])@ == preferred_handles(
                    lines.take(i as int),
                    m,
                )[k],
            forall|k: int|
                0 <= k < members@.len() ==> (#[trigger] members@[k]).deep_view()
                    == group_line_ids(lines.take(i as int), m, handles@[k]@),
            forall|k: int| 0 <= k < members@.len() ==> (#[trigger] members@[k])@.len() >= 1,
            forall|k1: int, k2: int|
                0 <= k1 < k2 < handles@.len() ==> handles@[k1]@ != handles@[k2]@,
        decreases n - i,
    {
        let line = &cart.deliverable_lines[i];
        proof {
            assert(lines.take(i as int + 1).drop_last() =~= lines.take(i as int));
        }
        let ghost pre = preferred_handles(lines.take(i as int), m);
        match resolve_line_preference(line, &index) {
            None => {
                proof {
                    assert(preferred_handles(lines.take(i as int + 1), m) == pre);
                    assert(forall|k: int|
                        0 <= k < members@.len() ==> group_line_ids(
                            lines.take(i as int + 1),
                            m,
                            #[trigger] handles@[k]@,
                        ) == group_line_ids(lines.take(i as int), m, handles@[k]@));
                }
            },
            Some(h) => {
                let hn = handles.len();
                let mut j: usize = 0;
                #[verifier::loop_isolation(true)]
                loop
                    invariant_except_break
                        hn == handles@.len(),
                        j <= hn,
                        forall|l: int| 0 <= l < j ==> (#[trigger] handles@[l])@ != h@,
                    ensures
                        j <= hn,
                        forall|l: int| 0 <= l < j ==> (#[trigger] handles@[l])@ != h@,
                        j < hn ==> handles@[j as int]@ == h@,
                        j == hn ==> forall|l: int|
                            0 <= l < hn ==> (#[trigger] handles@[l])@ != h@,
                    decreases hn - j,
                {
                    if j == hn {
                        break ;
                    }
                    if handles[j] == h {
                        break ;
                    }
                    j = j + 1;
                }
                if j < hn {
                    proof {
                        assert(pre.contains(h@)) by {
                            assert(pre[j as int] == handles@[j as int]@);
                        }
                        assert(preferred_handles(lines.take(i as int + 1), m) == pre);
                    }
                    let ghost old_members = members@;
                    members[j].push(line.id.clone());
                    proof {
                        assert((members@[j as int]).deep_view() =~= (old_members[j as int])
                            .deep_view()
                            .push(line.id@));
                        assert(forall|k: int|
                            0 <= k < members@.len() && k != j ==> group_line_ids(
                                lines.take(i as int + 1),
                                m,
                                #[trigger] handles@[k]@,
                            ) == group_line_ids(lines.take(i as int), m, handles@[k]@));
                        assert(group_line_ids(lines.take(i as int + 1), m, handles@[j as int]@)
                            == group_line_ids(lines.take(i as int), m, h@).push(lines[i as int].id@));
                    }
                } else {
                    proof {
                        assert(forall|idx: int| 0 <= idx < pre.len() ==> #[trigger] pre[idx] != h@)
                            by {
                            assert(forall|idx: int|
                                0 <= idx < pre.len() ==> #[trigger] pre[idx] == handles@[idx]@);
                            assert(forall|idx: int|
                                0 <= idx < pre.len() ==> (#[trigger] handles@[idx])@ != h@);
                        }
                        assert(!pre.contains(h@));
                        assert(preferred_handles(lines.take(i as int + 1), m) == pre.push(h@));
                        lemma_preferred_handles_complete(lines.take(i as int), m, h@);
                        lemma_group_line_ids_empty(lines.take(i as int), m, h@);
                        assert(group_line_ids(lines.take(i as int), m, h@) =~= Seq::empty());
                        assert(group_line_ids(lines.take(i as int + 1), m, h@) =~= Seq::empty().push(
                            lines[i as int].id@,
                        ));
                        assert(forall|k: int|
                            0 <= k < members@.len() ==> group_line_ids(
                                lines.take(i as int + 1),
                                m,
                                #[trigger] handles@[k]@,
                            ) == group_line_ids(lines.take(i as int), m, handles@[k]@));
                    }
                    let mut ids: Vec<String> = Vec::new();
                    ids.push(line.id.clone());
                    proof {
                        assert(ids.deep_view() =~= Seq::<Seq<char>>::empty().push(line.id@));
                    }
                    handles.push(h);
                    members.push(ids);
                }
            },
        }
        i = i + 1;
    }
    proof {
        assert(lines.take(n as int) =~= lines);
    }
    let mut operations: Vec<Operation> = Vec::new();
    let gn = handles.len();
    let mut k: usize = 0;
    while k < gn
        invariant
            k <= gn,
            operations@.len() == k,
            forall|l: int|
                0 <= l < k ==> operation_groups_lines(
                    #[trigger] operations@[l],
                    group_line_ids(lines, m, handles@[l]@),
                ),
        decreases gn - k,
    {
        let ids = clone_string_vec(&members[k]);
        proof {
            assert(ids.deep_view() =~= members@[k as int].deep_view());
        }
        operations.push(
            Operation::DeliverableLinesMustFulfillFromSameLocationAdd(
                DeliverableLinesMustFulfillFromSameLocationAddOperation {
                    deliverable_line_ids: Some(ids),
                },
            ),
        );
        k = k + 1;
    }
    CartFulfillmentConstraintsGenerateRunResult { operations }
}

} // verus!
