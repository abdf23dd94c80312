use vstd::prelude::*;
use vstd::set_lib::{lemma_int_range, lemma_len_subset, set_int_range};

verus! {

/// Draws a random identifier for a worker or a job.
///
/// Relies on `uuid::Uuid::new_v4` (random, version 4) and `Uuid::as_u128`.
/// Nothing is known of the value drawn.
#[verifier::external_body]
fn random_id() -> (r: u128) {
    uuid::Uuid::new_v4().as_u128()
}

/// When every identifier below `taken.len()` occurs in `taken`, the
/// identifier `taken.len()` does not: `taken` cannot hold more distinct
/// values than elements.
proof fn lemma_next_small_id_unused(taken: Seq<u128>)
    requires
        taken.len() <= usize::MAX,
        forall|k: int| 0 <= k < taken.len() ==> #[trigger] taken.contains(k as u128),
    ensures
        !taken.contains(taken.len() as u128),
{
    if taken.contains(taken.len() as u128) {
        let ints = taken.map_values(|x: u128| x as int);
        let range = set_int_range(0, taken.len() as int + 1);
        lemma_int_range(0, taken.len() as int + 1);
        assert forall|k: int| range.contains(k) implies ints.to_set().contains(k) by {
            assert((k as u128) as int == k);
            let i = if k < taken.len() {
                assert(taken.contains(k as u128));
                choose|i: int| 0 <= i < taken.len() && taken[i] == k as u128
            } else {
                choose|i: int| 0 <= i < taken.len() && taken[i] == taken.len() as u128
            };
            assert(ints[i] == k);
        }
        ints.lemma_cardinality_of_set();
        vstd::seq_lib::seq_to_set_is_finite(ints);
        lemma_len_subset(range, ints.to_set());
    }
}

/// An identifier not in `taken`: a random draw, or, should the draw collide,
/// the smallest number not taken.
pub(crate) fn fresh_id(taken: &Vec<u128>) -> (r: u128)
    ensures
        !taken@.contains(r),
{
    let drawn = random_id();
    if !contains_id(taken, drawn) {
        return drawn;
    }
    let n = taken.len();
    let mut c: usize = 0;
    while c < n
        invariant
            n == taken@.len(),
            c <= n,
            forall|k: int| 0 <= k < c ==> #[trigger] taken@.contains(k as u128),
        decreases n - c,
    {
        if !contains_id(taken, c as u128) {
            return c as u128;
        }
        c += 1;
    }
    proof {
        lemma_next_small_id_unused(taken@);
    }
    n as u128
}

/// Whether `x` is in `v`.
fn contains_id(v: &Vec<u128>, x: u128) -> (r: bool)
    ensures
        r == v@.contains(x),
{
    let mut i: usize = 0;
    while i < v.len()
        invariant
            i <= v@.len(),
            forall|k: int| 0 <= k < i ==> v@[k] != x,
        decreases v@.len() - i,
    {
        if v[i] == x {
            return true;
        }
        i += 1;
    }
    false
}

} // verus!
