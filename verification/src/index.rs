//! The location index: numeric location id to handle.
//!
//! Built once per invocation from the known locations. Each location
//! contributes its global identifier's numeric suffix, and, when the handle
//! itself reads as a number, that number too; a later insertion wins on a
//! colliding key.

use vstd::prelude::*;
use crate::gid::{gid_numeric_id, parse_u64_spec, parse_u64, extract_numeric_id_from_gid};
use crate::model::Location;

verus! {

/// The last-write-wins map described by a sequence of (id, handle) entries.
pub open spec fn entries_map(s: Seq<(u64, Seq<char>)>) -> Map<u64, Seq<char>>
    decreases s.len(),
{
    if s.len() == 0 {
        Map::empty()
    } else {
        entries_map(s.drop_last()).insert(s.last().0, s.last().1)
    }
}

/// What one location adds to the index: its numeric suffix, then its handle
/// read as a number, each mapped to the handle when they parse.
pub open spec fn location_entries(m: Map<u64, Seq<char>>, loc: Location) -> Map<u64, Seq<char>> {
    let with_id = match gid_numeric_id(loc.id@) {
        Some(n) => m.insert(n, loc.handle@),
        None => m,
    };
    match parse_u64_spec(loc.handle@) {
        Some(n) => with_id.insert(n, loc.handle@),
        None => with_id,
    }
}

/// The index built from a sequence of locations, in order.
pub open spec fn index_map(locs: Seq<Location>) -> Map<u64, Seq<char>>
    decreases locs.len(),
{
    if locs.len() == 0 {
        Map::empty()
    } else {
        location_entries(index_map(locs.drop_last()), locs.last())
    }
}

/// Lookup table from numeric location id to location handle.
pub struct LocationIndex {
    entries: Vec<(u64, String)>,
}

impl View for LocationIndex {
    type V = Map<u64, Seq<char>>;

    closed spec fn view(&self) -> Map<u64, Seq<char>> {
        entries_map(self.entries@.map_values(|p: (u64, String)| (p.0, p.1@)))
    }
}

proof fn lemma_entries_map_found(s: Seq<(u64, Seq<char>)>, id: u64, j: int)
    requires
        0 <= j < s.len(),
        s[j].0 == id,
        forall|l: int| j < l < s.len() ==> s[l].0 != id,
    ensures
        entries_map(s).contains_key(id),
        entries_map(s)[id] == s[j].1,
    decreases s.len(),
{
    if j < s.len() - 1 {
        assert(s.last().0 != id);
        assert(forall|l: int| j < l < s.len() - 1 ==> s.drop_last()[l].0 != id);
        lemma_entries_map_found(s.drop_last(), id, j);
    }
}

proof fn lemma_entries_map_absent(s: Seq<(u64, Seq<char>)>, id: u64)
    requires
        forall|l: int| 0 <= l < s.len() ==> s[l].0 != id,
    ensures
        !entries_map(s).contains_key(id),
    decreases s.len(),
{
    if s.len() > 0 {
        assert(forall|l: int| 0 <= l < s.len() - 1 ==> s.drop_last()[l].0 != id);
        lemma_entries_map_absent(s.drop_last(), id);
    }
}

impl LocationIndex {
    /// An index with no entries.
    pub fn new() -> (r: Self)
        ensures
            r@ == Map::<u64, Seq<char>>::empty(),
    {
        let r = LocationIndex { entries: Vec::new() };
        proof {
            assert(r.entries@.map_values(|p: (u64, String)| (p.0, p.1@)) =~= Seq::empty());
        }
        r
    }

    /// Record that numeric id `id` names the location with handle `handle`,
    /// displacing any earlier entry for `id`.
    pub fn insert(&mut self, id: u64, handle: String)
        ensures
            final(self)@ == old(self)@.insert(id, handle@),
    {
        self.entries.push((id, handle));
        proof {
            let f = |p: (u64, String)| (p.0, p.1@);
            assert(self.entries@.map_values(f).drop_last() =~= old(self).entries@.map_values(f));
        }
    }

    /// The handle recorded for `id`, if any.
    #[verifier::loop_isolation(false)]
    pub fn get(&self, id: u64) -> (r: Option<String>)
        ensures
            match r {
                Some(h) => self@.contains_key(id) && h@ == self@[id],
                None => !self@.contains_key(id),
            },
    {
        let ghost s = self.entries@.map_values(|p: (u64, String)| (p.0, p.1@));
        let n = self.entries.len();
        let mut i: usize = n;
        while i > 0
            invariant
                i <= n,
                forall|l: int| i <= l < n ==> self.entries@[l].0 != id,
            decreases i,
        {
            i = i - 1;
            let e = &self.entries[i];
            if e.0 == id {
                proof {
                    assert(forall|l: int| 0 <= l < n ==> s[l] == (self.entries@[l].0, self.entries@[l].1@));
                    lemma_entries_map_found(s, id, i as int);
                }
                return Some(e.1.clone());
            }
        }
        proof {
            assert(forall|l: int| 0 <= l < n ==> s[l] == (self.entries@[l].0, self.entries@[l].1@));
            lemma_entries_map_absent(s, id);
        }
        None
    }
}

/// Build the index the two functions share: for each location, in order,
/// its numeric suffix and its numeric handle each map to its handle.
#[verifier::loop_isolation(false)]
pub fn build_location_index(locations: &Vec<Location>) -> (r: LocationIndex)
    ensures
        r@ == index_map(locations@),
{
    let mut index = LocationIndex::new();
    let n = locations.len();
    let mut i: usize = 0;
    while i < n
        invariant
            i <= n,
            index@ == index_map(locations@.take(i as int)),
        decreases n - i,
    {
        let loc = &locations[i];
        proof {
            assert(locations@.take(i as int + 1).drop_last() =~= locations@.take(i as int));
        }
        match extract_numeric_id_from_gid(loc.id.as_str()) {
            Some(numeric_id) => {
                index.insert(numeric_id, loc.handle.clone());
            },
            None => {},
        }
        match parse_u64(loc.handle.as_str()) {
            Some(handle_as_id) => {
                index.insert(handle_as_id, loc.handle.clone());
            },
            None => {},
        }
        i = i + 1;
    }
    proof {
        assert(locations@.take(n as int) =~= locations@);
    }
    index
}

} // verus!
