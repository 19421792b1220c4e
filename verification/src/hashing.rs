//! The hash that decides which reduce task a key goes to.

use vstd::prelude::*;
use std::collections::hash_map::DefaultHasher;
use std::hash::Hasher;
use vstd::std_specs::hash::DefaultHasherAdditionalSpecFns;

verus! {

/// The hash of a key: `DefaultHasher` (with its fixed keys) fed the UTF-8
/// bytes of the key and then the byte `0xff`, which is how `str` hashes itself.
pub open spec fn key_hash(key: Seq<char>) -> u64 {
    DefaultHasher::spec_finish(seq![vstd::utf8::encode_utf8(key), seq![0xffu8]])
}

/// The hash of `key` (see [`key_hash`]).
pub fn ihash(key: &str) -> (h: u64)
    ensures
        h == key_hash(key@),
{
    let mut s = DefaultHasher::new();
    s.write(key.as_bytes());
    let terminator: [u8; 1] = [0xff];
    s.write(&terminator);
    let h = s.finish();
    proof {
        assert(terminator@ =~= seq![0xffu8]);
        assert(s@ =~= seq![vstd::utf8::encode_utf8(key@), seq![0xffu8]]);
    }
    h
}

} // verus!
