//! Counts that wrap around.

use vstd::arithmetic::div_mod::{lemma_fundamental_div_mod, lemma_fundamental_div_mod_converse};
use vstd::prelude::*;

verus! {

/// `n` plus one, wrapping around at the largest `usize`.
pub open spec fn wrapping_succ(n: usize) -> usize {
    if n == usize::MAX {
        0
    } else {
        (n + 1) as usize
    }
}

/// `n` minus one, wrapping around at zero.
pub open spec fn wrapping_pred(n: usize) -> usize {
    if n == 0 {
        usize::MAX
    } else {
        (n - 1) as usize
    }
}

/// The number one above or below a remainder, taken around.
pub proof fn lemma_wrapping_steps(n: int)
    requires
        n >= 0,
    ensures
        wrapping_succ((n % (usize::MAX + 1)) as usize) == (n + 1) % (usize::MAX + 1),
        n > 0 ==> wrapping_pred((n % (usize::MAX + 1)) as usize) == (n - 1) % (usize::MAX + 1),
{
    let m = usize::MAX + 1;
    let q = n / m;
    let r = n % m;
    lemma_fundamental_div_mod(n, m);
    if r == m - 1 {
        assert(m * (q + 1) == m * q + m) by (nonlinear_arith);
        lemma_fundamental_div_mod_converse(n + 1, m, q + 1, 0);
    } else {
        lemma_fundamental_div_mod_converse(n + 1, m, q, r + 1);
    }
    if n > 0 {
        if r == 0 {
            assert(m * (q - 1) == m * q - m) by (nonlinear_arith);
            lemma_fundamental_div_mod_converse(n - 1, m, q - 1, m - 1);
        } else {
            lemma_fundamental_div_mod_converse(n - 1, m, q, r - 1);
        }
    }
}

/// A count goes up and down by one, and around at its ends.
pub proof fn law_counts_wrap_only_at_the_ends(n: usize)
    ensures
        n < usize::MAX ==> wrapping_succ(n) == n + 1,
        n == usize::MAX ==> wrapping_succ(n) == 0,
        n > 0 ==> wrapping_pred(n) == n - 1,
        n == 0 ==> wrapping_pred(n) == usize::MAX,
{
}

} // verus!
