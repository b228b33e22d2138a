//! The entries of standard hash maps keyed by strings.

use vstd::prelude::*;
use std::collections::HashMap;

verus! {

/// The entries of a map, each once, in the order the map is walked
/// (`HashMap::iter`). That order depends on the map's hasher and is not
/// stated.
#[verifier::external_body]
pub(crate) fn map_entries<'a, V>(map: &'a HashMap<String, V>) -> (r: Vec<(&'a String, &'a V)>)
    ensures
        r@.len() == map@.len(),
        forall|i: int|
            0 <= i < r@.len() ==> map@.contains_key(*(#[trigger] r@[i]).0) && map@[*r@[i].0]
                == *r@[i].1,
        forall|k: String| #[trigger]
            map@.contains_key(k) ==> exists|i: int| 0 <= i < r@.len() && *r@[i].0 == k,
{
    map.iter().collect()
}

} // verus!
