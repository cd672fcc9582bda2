//! Properties of the routing logic, stated and proved once for all inputs.

use vstd::prelude::*;
use crate::constraints::{group_line_ids, lemma_preferred_handles_complete, preferred_handles};
use crate::gid::{gid_numeric_id, parse_u64_spec};
use crate::index::index_map;
use crate::model::{CartLine, Location};
use crate::rankings::{group_preference, rank_for};
use crate::scan::{line_preference, location_key};

verus! {

/// The index has a key for every location's numeric suffix, whatever else
/// the list holds.
pub proof fn lemma_index_contains_numeric_suffix(locs: Seq<Location>, i: int, n: u64)
    requires
        0 <= i < locs.len(),
        gid_numeric_id(locs[i].id@) == Some(n),
    ensures
        index_map(locs).contains_key(n),
    decreases locs.len(),
{
    if i < locs.len() - 1 {
        assert(locs.drop_last()[i] == locs[i]);
        lemma_index_contains_numeric_suffix(locs.drop_last(), i, n);
    }
}

/// The index maps a location's numeric suffix to that location's handle,
/// provided no later location claims the same key; a later claim wins
/// instead, insertion order deciding.
pub proof fn lemma_index_maps_suffix_to_handle(locs: Seq<Location>, i: int, n: u64)
    requires
        0 <= i < locs.len(),
        gid_numeric_id(locs[i].id@) == Some(n),
        forall|j: int|
            i < j < locs.len() ==> gid_numeric_id((#[trigger] locs[j]).id@) != Some(n)
                && parse_u64_spec(locs[j].handle@) != Some(n),
    ensures
        index_map(locs).contains_key(n),
        index_map(locs)[n] == locs[i].handle@,
    decreases locs.len(),
{
    if i < locs.len() - 1 {
        assert(forall|j: int|
            i < j < locs.len() - 1 ==> #[trigger] locs.drop_last()[j] == locs[j]);
        assert(locs.drop_last()[i] == locs[i]);
        lemma_index_maps_suffix_to_handle(locs.drop_last(), i, n);
        assert(locs.last() == locs[locs.len() - 1]);
    }
}

/// Every key of the index is some location's numeric suffix or its handle
/// read as a number: a location with neither contributes no entry.
pub proof fn lemma_index_key_has_source(locs: Seq<Location>, n: u64)
    requires
        index_map(locs).contains_key(n),
    ensures
        exists|i: int|
            #![trigger locs[i]]
            0 <= i < locs.len() && (gid_numeric_id(locs[i].id@) == Some(n) || parse_u64_spec(
                locs[i].handle@,
            ) == Some(n)),
    decreases locs.len(),
{
    let last = locs.last();
    if gid_numeric_id(last.id@) == Some(n) || parse_u64_spec(last.handle@) == Some(n) {
        assert(locs[locs.len() - 1] == last);
    } else {
        assert(index_map(locs.drop_last()).contains_key(n));
        lemma_index_key_has_source(locs.drop_last(), n);
        let i = choose|i: int|
            #![trigger locs.drop_last()[i]]
            0 <= i < locs.drop_last().len() && (gid_numeric_id(locs.drop_last()[i].id@) == Some(n)
                || parse_u64_spec(locs.drop_last()[i].handle@) == Some(n));
        assert(locs[i] == locs.drop_last()[i]);
    }
}

/// A cart whose lines never carry the `_Location ID` key forms no groups,
/// so the constraints function emits no operations.
pub proof fn lemma_no_location_attributes_no_groups(
    lines: Seq<CartLine>,
    index: Map<u64, Seq<char>>,
)
    requires
        forall|i: int|
            0 <= i < lines.len() ==> ((#[trigger] lines[i]).attribute matches Some(a) ==> a.key@
                != location_key()),
    ensures
        preferred_handles(lines, index).len() == 0,
    decreases lines.len(),
{
    if lines.len() > 0 {
        assert(forall|i: int|
            0 <= i < lines.len() - 1 ==> #[trigger] lines.drop_last()[i] == lines[i]);
        lemma_no_location_attributes_no_groups(lines.drop_last(), index);
        assert(lines.last() == lines[lines.len() - 1]);
        assert(line_preference(lines.last(), index) is None);
    }
}

/// No handle is grouped twice.
pub proof fn lemma_preferred_handles_distinct(
    lines: Seq<CartLine>,
    index: Map<u64, Seq<char>>,
    k1: int,
    k2: int,
)
    requires
        0 <= k1 < k2 < preferred_handles(lines, index).len(),
    ensures
        preferred_handles(lines, index)[k1] != preferred_handles(lines, index)[k2],
    decreases lines.len(),
{
    let pre = preferred_handles(lines.drop_last(), index);
    match line_preference(lines.last(), index) {
        None => {
            lemma_preferred_handles_distinct(lines.drop_last(), index, k1, k2);
        },
        Some(h) => {
            if pre.contains(h) {
                lemma_preferred_handles_distinct(lines.drop_last(), index, k1, k2);
            } else {
                if k2 < pre.len() {
                    lemma_preferred_handles_distinct(lines.drop_last(), index, k1, k2);
                } else {
                    assert(preferred_handles(lines, index)[k2] == h);
                    if pre[k1] == h {
                        assert(pre.contains(h));
                    }
                }
            }
        },
    }
}

/// Each line with `line_preference` `Some(handle)` adds one id to the group.
proof fn lemma_group_line_ids_take_step(
    lines: Seq<CartLine>,
    index: Map<u64, Seq<char>>,
    handle: Seq<char>,
    i: int,
)
    requires
        0 <= i < lines.len(),
        line_preference(lines[i], index) == Some(handle),
    ensures
        group_line_ids(lines.take(i + 1), index, handle).len() == group_line_ids(
            lines.take(i),
            index,
            handle,
        ).len() + 1,
{
    assert(lines.take(i + 1).drop_last() =~= lines.take(i));
    assert(lines.take(i + 1).last() == lines[i]);
}

/// A longer prefix never groups fewer ids.
proof fn lemma_group_line_ids_take_monotone(
    lines: Seq<CartLine>,
    index: Map<u64, Seq<char>>,
    handle: Seq<char>,
    k1: int,
    k2: int,
)
    requires
        0 <= k1 <= k2 <= lines.len(),
    ensures
        group_line_ids(lines.take(k1), index, handle).len() <= group_line_ids(
            lines.take(k2),
            index,
            handle,
        ).len(),
    decreases k2 - k1,
{
    if k1 < k2 {
        lemma_group_line_ids_take_monotone(lines, index, handle, k1, k2 - 1);
        assert(lines.take(k2).drop_last() =~= lines.take(k2 - 1));
    }
}

/// When every line that asks for a location resolves the same handle, and
/// at least two lines do, exactly one group forms — one constraint
/// operation — and it holds at least those two lines' ids.
pub proof fn lemma_shared_preference_single_group(
    lines: Seq<CartLine>,
    index: Map<u64, Seq<char>>,
    handle: Seq<char>,
    i1: int,
    i2: int,
)
    requires
        0 <= i1 < i2 < lines.len(),
        line_preference(lines[i1], index) == Some(handle),
        line_preference(lines[i2], index) == Some(handle),
        forall|i: int|
            0 <= i < lines.len() ==> (#[trigger] line_preference(lines[i], index) matches Some(p)
                ==> p == handle),
    ensures
        preferred_handles(lines, index) =~= seq![handle],
        group_line_ids(lines, index, handle).len() >= 2,
{
    let ph = preferred_handles(lines, index);
    lemma_preferred_handles_complete(lines, index, handle);
    assert(ph.contains(handle));
    assert forall|k: int| 0 <= k < ph.len() implies #[trigger] ph[k] == handle by {
        assert(ph.contains(ph[k]));
        lemma_preferred_handles_complete(lines, index, ph[k]);
    }
    if ph.len() >= 2 {
        lemma_preferred_handles_distinct(lines, index, 0, 1);
    }
    assert(ph =~= seq![handle]);
    lemma_group_line_ids_take_monotone(lines, index, handle, 0, i1);
    lemma_group_line_ids_take_step(lines, index, handle, i1);
    lemma_group_line_ids_take_monotone(lines, index, handle, i1 + 1, i2);
    lemma_group_line_ids_take_step(lines, index, handle, i2);
    lemma_group_line_ids_take_monotone(lines, index, handle, i2 + 1, lines.len() as int);
    assert(lines.take(lines.len() as int) =~= lines);
}

/// A group none of whose lines resolves a request has no preference, and
/// under no preference every candidate handle ranks 0.
pub proof fn lemma_no_preference_ranks_zero(lines: Seq<CartLine>, index: Map<u64, Seq<char>>)
    requires
        forall|i: int|
            0 <= i < lines.len() ==> #[trigger] line_preference(lines[i], index) is None,
    ensures
        group_preference(lines, index) is None,
        forall|handle: Seq<char>| rank_for(handle, group_preference(lines, index)) == 0,
    decreases lines.len(),
{
    if lines.len() > 0 {
        assert(line_preference(lines[0], index) is None);
        assert(forall|i: int|
            0 <= i < lines.len() - 1 ==> #[trigger] lines.drop_first()[i] == lines[i + 1]);
        lemma_no_preference_ranks_zero(lines.drop_first(), index);
    }
}

/// With a resolved preference, the preferred handle ranks 0 and every
/// other handle ranks 1.
pub proof fn lemma_preference_ranks(
    lines: Seq<CartLine>,
    index: Map<u64, Seq<char>>,
    handle: Seq<char>,
)
    requires
        group_preference(lines, index) == Some(handle),
    ensures
        rank_for(handle, group_preference(lines, index)) == 0,
        forall|other: Seq<char>|
            other != handle ==> rank_for(other, group_preference(lines, index)) == 1,
{
}

} // verus!
