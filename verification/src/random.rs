//! The random source of a generation run.

use rand::rngs::StdRng;
use rand::Rng;
use vstd::prelude::*;

verus! {

/// `rand::rngs::StdRng`, the generator that every draw of a run comes from.
/// It is carried through; nothing is claimed of what is inside it.
#[verifier::external_type_specification]
#[verifier::external_body]
pub struct ExStdRng(StdRng);

/// `Rng::gen_range` of the `rand` crate on the inclusive range `low..=high`.
/// All that is claimed of the number drawn is that it lies in the range;
/// which number of the range comes up is left open. The call panics on an
/// empty range, which `low <= high` excludes.
#[verifier::external_body]
pub(crate) fn uniform_inclusive(rng: &mut StdRng, low: u64, high: u64) -> (drawn: u64)
    requires
        low <= high,
    ensures
        low <= drawn <= high,
{
    rng.gen_range(low..=high)
}

} // verus!
