use vstd::prelude::*;

use crate::alphabet::digit_symbol;
use crate::codec::{encoding, lemma_encoding_nonempty};

verus! {

/// `64` to the power `n`.
pub open spec fn pow64(n: nat) -> nat
    decreases n,
{
    if n == 0 {
        1
    } else {
        64 * pow64((n - 1) as nat)
    }
}

/// Powers of 64 grow with the exponent.
pub proof fn lemma_pow64_monotonic(a: nat, b: nat)
    requires
        a <= b,
    ensures
        1 <= pow64(a) <= pow64(b),
    decreases b,
{
    if a < b {
        lemma_pow64_monotonic(a, (b - 1) as nat);
    } else if b > 0 {
        lemma_pow64_monotonic(0, (b - 1) as nat);
    }
}

/// The largest value that `n` base-64 digits can write, `64^n - 1`, or
/// `None` where `64^n` does not fit in a `usize`.
pub fn max_value_for_letters(n: u32) -> (r: Option<usize>)
    ensures
        r == (if pow64(n as nat) <= usize::MAX {
            Some((pow64(n as nat) - 1) as usize)
        } else {
            None::<usize>
        }),
{
    let mut p: usize = 1;
    let mut i: u32 = 0;
    while i < n
        invariant
            i <= n,
            p == pow64(i as nat),
            p >= 1,
        decreases n - i,
    {
        match p.checked_mul(64) {
            Some(q) => {
                proof {
                    lemma_pow64_monotonic(0, (i + 1) as nat);
                }
                p = q;
            },
            None => {
                proof {
                    lemma_pow64_monotonic((i + 1) as nat, n as nat);
                }
                return None;
            },
        }
        i = i + 1;
    }
    Some(p - 1)
}

/// For `n >= 1`, the largest `n`-digit value `64^n - 1` has an encoding of
/// exactly `n` symbols, and the next value `64^n` one of `n + 1` symbols.
pub proof fn lemma_max_value_boundary(n: nat)
    requires
        n >= 1,
    ensures
        encoding((pow64(n) - 1) as nat).len() == n,
        encoding(pow64(n)).len() == n + 1,
    decreases n,
{
    if n == 1 {
        assert(pow64(1) == 64) by {
            assert(pow64(0) == 1);
        }
        assert(encoding(64) == encoding(1).push(digit_symbol(0)));
    } else {
        lemma_max_value_boundary((n - 1) as nat);
        lemma_pow64_monotonic(1, (n - 1) as nat);
        let k = pow64((n - 1) as nat);
        assert(pow64(n) == 64 * k);
        assert((64 * k - 1) / 64 == k - 1);
        assert((64 * k) / 64 == k);
        lemma_encoding_nonempty(k);
    }
}

} // verus!
