use vstd::prelude::*;

use crate::codec::{encode, encoding};

verus! {

/// Relies on rand's `thread_rng` and `Rng::gen_range`: a value drawn from the
/// half-open range `[low, high)`. `gen_range` panics on an empty range.
#[verifier::external_body]
fn draw_in_range(low: usize, high: usize) -> (r: usize)
    requires
        low < high,
    ensures
        low <= r < high,
{
    rand::Rng::gen_range(&mut rand::thread_rng(), low..high)
}

/// A random identifier: the base-64 text of a number drawn uniformly from
/// `range`, which must not be empty.
pub fn generate(range: std::ops::Range<usize>) -> (r: String)
    requires
        range.start < range.end,
    ensures
        exists|v: nat| range.start <= v < range.end && r@ == #[trigger] encoding(v),
{
    let v = draw_in_range(range.start, range.end);
    let r = encode(v);
    assert(r@ == encoding(v as nat));
    r
}

} // verus!
