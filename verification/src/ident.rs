//! Identifier generation: random 32-bit identifiers that are unique within a batch.

use std::collections::HashSet;
use vstd::prelude::*;
use vstd::set_lib::*;

verus! {

broadcast use vstd::std_specs::hash::group_hash_axioms;

/// How many random draws `next_unique_id` makes before it stops drawing and takes the
/// smallest identifier that is still unused.
pub const MAX_DRAWS: u64 = 0xffff_ffff_ffff_ffff;

/// The number of distinct identifiers.
pub open spec fn id_space() -> nat {
    0x1_0000_0000
}

/// Every set of identifiers is finite.
pub proof fn lemma_ids_finite(ids: Set<u32>)
    ensures
        ids.finite(),
        ids.len() <= id_space(),
{
    let range = set_int_range(0, 0x1_0000_0000);
    lemma_int_range(0, 0x1_0000_0000);
    let all = range.map(|i: int| i as u32);
    range.lemma_map_finite(|i: int| i as u32);
    assert forall|x: u32| ids.contains(x) implies all.contains(x) by {
        assert(range.contains(x as int));
    }
    lemma_map_size_bound(range, all, |i: int| i as u32);
    lemma_len_subset(ids, all);
}

/// A set that holds every identifier below `n` has at least `n` members.
proof fn lemma_prefix_len(ids: Set<u32>, n: nat)
    requires
        ids.finite(),
        n <= id_space(),
        forall|x: u32| x < n ==> ids.contains(x),
    ensures
        ids.len() >= n,
    decreases n,
{
    if n > 0 {
        let top = (n - 1) as u32;
        lemma_prefix_len(ids.remove(top), (n - 1) as nat);
    }
}

/// Draws one identifier from the process-wide generator of `fastrand` (`fastrand::u32`
/// over the full range). Nothing is claimed of the value drawn.
#[verifier::external_body]
fn random_u32() -> (id: u32) {
    fastrand::u32(..)
}

/// Records `candidate` in `existing` and tells whether it was unused until now.
pub fn claim_id(existing: &mut HashSet<u32>, candidate: u32) -> (fresh: bool)
    ensures
        fresh == !old(existing)@.contains(candidate),
        final(existing)@ == old(existing)@.insert(candidate),
{
    existing.insert(candidate)
}

/// The smallest identifier that `existing` does not hold.
pub fn smallest_unused_id(existing: &HashSet<u32>) -> (id: u32)
    requires
        existing@.len() < id_space(),
    ensures
        !existing@.contains(id),
        forall|x: u32| x < id ==> existing@.contains(x),
{
    let mut id: u32 = 0;
    while existing.contains(&id)
        invariant
            existing@.len() < id_space(),
            forall|x: u32| x < id ==> existing@.contains(x),
        decreases u32::MAX - id,
    {
        proof {
            lemma_ids_finite(existing@);
            lemma_prefix_len(existing@, (id + 1) as nat);
        }
        id = id + 1;
    }
    id
}

/// Produces an identifier that `existing` did not hold, and records it there.
///
/// Identifiers are drawn at random and redrawn while they collide with `existing`. After
/// `MAX_DRAWS` collisions in a row the smallest unused identifier is taken instead, so the
/// call ends whenever an identifier is left.
pub fn next_unique_id(existing: &mut HashSet<u32>) -> (id: u32)
    requires
        old(existing)@.len() < id_space(),
    ensures
        !old(existing)@.contains(id),
        final(existing)@ == old(existing)@.insert(id),
{
    let mut draws: u64 = 0;
    while draws < MAX_DRAWS
        invariant
            *existing == *old(existing),
        decreases MAX_DRAWS - draws,
    {
        let candidate = random_u32();
        if !existing.contains(&candidate) {
            claim_id(existing, candidate);
            return candidate;
        }
        draws = draws + 1;
    }
    let id = smallest_unused_id(existing);
    claim_id(existing, id);
    id
}

} // verus!
