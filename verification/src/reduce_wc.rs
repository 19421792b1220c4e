//! The reduce side of the word-count job: the interface a reduce binary
//! exports, and the job's own reduce function.

use vstd::prelude::*;

verus! {

/// The function a reduce binary exports: from a key and all its values (at
/// least one, as grouping gives them) to one output record.
pub trait Guest {
    fn reduce(key: String, values: Vec<String>) -> (String, String)
        requires
            values@.len() > 0,
    ;
}

/// The word-count job's reduce binary.
pub struct Component;

impl Guest for Component {
    /// Keeps the key and its first value.
    fn reduce(key: String, values: Vec<String>) -> (r: (String, String))
        ensures
            r.0@ == key@,
            r.1@ == values@[0]@,
    {
        let first = values[0].clone();
        (key, first)
    }
}

} // verus!
