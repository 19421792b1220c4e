//! The map side of the word-count job: the interface a map binary exports,
//! and the job's own map function.

use vstd::prelude::*;

verus! {

/// The function a map binary exports: from a key (the input file's path)
/// and a value (its text) to the records it emits.
pub trait Guest {
    fn map(key: String, value: String) -> Vec<(String, String)>;
}

/// The word-count job's map binary.
pub struct Component;

impl Guest for Component {
    /// Emits the input as one record: the file's path and its text.
    fn map(key: String, value: String) -> (r: Vec<(String, String)>)
        ensures
            r@.len() == 1,
            r@[0].0@ == key@,
            r@[0].1@ == value@,
    {
        let mut r: Vec<(String, String)> = Vec::new();
        r.push((key, value));
        r
    }
}

} // verus!
