//! The preference attribute scanner both functions share.
//!
//! A cart line asks for a location by carrying an attribute keyed exactly
//! `_Location ID` whose value reads as a decimal number known to the
//! location index. Anything else — no attribute, another key, an unparsable
//! value, an unknown id — is silently no request.

use vstd::prelude::*;
use crate::gid::{parse_u64_spec, parse_u64};
use crate::index::LocationIndex;
use crate::model::CartLine;
use crate::text::str_eq;

verus! {

/// The attribute key that carries a requested location id.
pub open spec fn location_key() -> Seq<char> {
    "_Location ID"@
}

/// The handle one line asks for: its `_Location ID` attribute's value read
/// as a number and resolved through the index. Anything else is no request.
pub open spec fn line_preference(line: CartLine, index: Map<u64, Seq<char>>) -> Option<
    Seq<char>,
> {
    match line.attribute {
        None => None,
        Some(attr) => if attr.key@ == location_key() {
            match attr.value {
                None => None,
                Some(v) => match parse_u64_spec(v@) {
                    None => None,
                    Some(id) => if index.contains_key(id) {
                        Some(index[id])
                    } else {
                        None
                    },
                },
            }
        } else {
            None
        },
    }
}

/// Resolve the location handle one line asks for, if any.
pub fn resolve_line_preference(line: &CartLine, index: &LocationIndex) -> (r: Option<String>)
    ensures
        match r {
            Some(h) => line_preference(*line, index@) == Some(h@),
            None => line_preference(*line, index@) is None,
        },
{
    match &line.attribute {
        None => None,
        Some(attr) => {
            if str_eq(attr.key.as_str(), "_Location ID") {
                match &attr.value {
                    None => None,
                    Some(v) => match parse_u64(v.as_str()) {
                        None => None,
                        Some(id) => index.get(id),
                    },
                }
            } else {
                None
            }
        },
    }
}

} // verus!
