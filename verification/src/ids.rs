//! Random identifiers for tasks and workers.

use vstd::prelude::*;

verus! {

/// The bits of a 128-bit identifier that hold the UUID version and variant.
pub open spec fn uuid_version_mask() -> u128 {
    0xF000_C000_0000_0000_0000u128
}

/// The value of those bits in a random (version 4, RFC 4122 variant) UUID.
pub open spec fn uuid_v4_bits() -> u128 {
    0x4000_8000_0000_0000_0000u128
}

/// Calls `uuid::Uuid::new_v4` and returns the UUID as a `u128`
/// (`Uuid::as_u128`). The value is random: the contract states only that the
/// version nibble is 4 and the variant bits are `10`, as the crate's source
/// sets them; nothing else about the value is promised.
#[verifier::external_body]
pub(crate) fn random_id() -> (id: u128)
    ensures
        id & uuid_version_mask() == uuid_v4_bits(),
{
    uuid::Uuid::new_v4().as_u128()
}

/// The `j`-th way of moving a random id to a free one: `j` spread over bits
/// that hold neither the UUID version nor the variant (the low 62 bits, then
/// bits 64 to 67).
pub open spec fn id_offset(j: u128) -> u128 {
    (j & 0x3FFF_FFFF_FFFF_FFFFu128) | ((j >> 62u128) << 64u128)
}

proof fn lemma_offset_keeps_version(r: u128, j: u128)
    requires
        j < 0x4_0000_0000_0000_0000u128,
    ensures
        (r ^ ((j & 0x3FFF_FFFF_FFFF_FFFFu128) | ((j >> 62u128) << 64u128))) & 0xF000_C000_0000_0000_0000u128
            == r & 0xF000_C000_0000_0000_0000u128,
{
    assert((r ^ ((j & 0x3FFF_FFFF_FFFF_FFFFu128) | ((j >> 62u128) << 64u128))) & 0xF000_C000_0000_0000_0000u128
        == r & 0xF000_C000_0000_0000_0000u128) by (bit_vector)
        requires
            j < 0x4_0000_0000_0000_0000u128;
}

proof fn lemma_offset_injective(r: u128, a: u128, b: u128)
    requires
        a < 0x4_0000_0000_0000_0000u128,
        b < 0x4_0000_0000_0000_0000u128,
        a != b,
    ensures
        r ^ id_offset(a) != r ^ id_offset(b),
{
    assert(r ^ ((a & 0x3FFF_FFFF_FFFF_FFFFu128) | ((a >> 62u128) << 64u128))
        != r ^ ((b & 0x3FFF_FFFF_FFFF_FFFFu128) | ((b >> 62u128) << 64u128))) by (bit_vector)
        requires
            a < 0x4_0000_0000_0000_0000u128,
            b < 0x4_0000_0000_0000_0000u128,
            a != b;
}

/// Among `used.len() + 1` variants of a draw, one is not in `used`.
proof fn lemma_some_offset_free(used: Seq<u128>, r: u128)
    requires
        used.no_duplicates(),
        used.len() < 0x3_0000_0000_0000_0000,
    ensures
        exists|j: u128| j <= used.len() && !used.contains(r ^ #[trigger] id_offset(j)),
{
    if forall|j: u128| j <= used.len() ==> used.contains(r ^ #[trigger] id_offset(j)) {
        lemma_all_offsets_used_impossible(used, r);
    }
}

proof fn lemma_all_offsets_used_impossible(used: Seq<u128>, r: u128)
    requires
        used.no_duplicates(),
        used.len() < 0x3_0000_0000_0000_0000,
        forall|j: u128| j <= used.len() ==> used.contains(r ^ #[trigger] id_offset(j)),
    ensures
        used.len() + 1 <= used.len(),
{
    let cs = Seq::new((used.len() + 1) as nat, |j: int| r ^ id_offset(j as u128));
    assert forall|a: int, b: int| 0 <= a < cs.len() && 0 <= b < cs.len() && a != b implies cs[a] != cs[b] by {
        lemma_offset_injective(r, a as u128, b as u128);
    }
    assert(cs.no_duplicates());
    cs.unique_seq_to_set();
    used.unique_seq_to_set();
    assert forall|x: u128| cs.to_set().contains(x) implies used.to_set().contains(x) by {
        let j = choose|j: int| 0 <= j < cs.len() && cs[j] == x;
        assert(used.contains(r ^ id_offset(j as u128)));
    }
    vstd::set_lib::lemma_len_subset(cs.to_set(), used.to_set());
}

/// Whether `x` is among `v`.
fn contains_id(v: &Vec<u128>, x: u128) -> (b: bool)
    ensures
        b == v@.contains(x),
{
    for i in 0..v.len()
        invariant
            forall|k: int| 0 <= k < i ==> v@[k] != x,
    {
        if v[i] == x {
            return true;
        }
    }
    false
}

/// A random id (see [`random_id`]) that is not among `used`. The random
/// draw is kept when it is new; when it repeats an id in use, the first of
/// its variants `draw ^ id_offset(j)` that is new is taken instead, which
/// keeps the version and variant bits.
pub(crate) fn fresh_id(used: &Vec<u128>) -> (id: u128)
    requires
        used@.no_duplicates(),
    ensures
        !used@.contains(id),
        id & uuid_version_mask() == uuid_v4_bits(),
{
    let r = random_id();
    let n = used.len();
    let mut j: u128 = 0;
    while j <= n as u128
        invariant
            n == used@.len(),
            j <= n + 1,
            r & uuid_version_mask() == uuid_v4_bits(),
            forall|k: u128| k < j ==> used@.contains(r ^ #[trigger] id_offset(k)),
        decreases n + 1 - j,
    {
        let cand = r ^ ((j & 0x3FFF_FFFF_FFFF_FFFFu128) | ((j >> 62u128) << 64u128));
        if !contains_id(used, cand) {
            proof {
                lemma_offset_keeps_version(r, j);
            }
            return cand;
        }
        j = j + 1;
    }
    proof {
        lemma_some_offset_free(used@, r);
        let k = choose|k: u128| k <= used@.len() && !used@.contains(r ^ #[trigger] id_offset(k));
        assert(used@.contains(r ^ id_offset(k)));
    }
    r
}

} // verus!
