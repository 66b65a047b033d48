//! Toroidal index arithmetic: Euclidean modulo for wrapping coordinates.

use vstd::prelude::*;

verus! {

use vstd::arithmetic::div_mod::lemma_fundamental_div_mod;
use vstd::arithmetic::div_mod::lemma_fundamental_div_mod_converse;
use vstd::arithmetic::div_mod::lemma_mod_bound;

/// Euclidean modulo: the representative of `a` modulo `m` in `[0, m)`.
///
/// Ghost `%` in Verus is already Euclidean for a positive divisor, so the
/// result is exactly `a % m` over `int`, whatever the sign of `a`. Rust's
/// native `%` truncates toward zero instead, which is why wrapping a negative
/// coordinate needs this adjustment.
pub fn emod(a: i64, m: i64) -> (r: i64)
    requires
        0 < m,
        i64::MIN < a,
    ensures
        r == a as int % m as int,
        0 <= r < m,
{
    proof {
        lemma_mod_bound(a as int, m as int);
    }
    if a >= 0 {
        a % m
    } else {
        let k = (-a) % m;
        proof {
            let ai = a as int;
            let mi = m as int;
            let q = (-ai) / mi;
            lemma_fundamental_div_mod(-ai, mi);
            if k == 0 {
                assert(ai == (-q) * mi + 0) by (nonlinear_arith)
                    requires
                        -ai == mi * q + k as int,
                        k == 0,
                ;
                lemma_fundamental_div_mod_converse(ai, mi, -q, 0);
            } else {
                assert(ai == (-q - 1) * mi + (mi - k as int)) by (nonlinear_arith)
                    requires
                        -ai == mi * q + k as int,
                ;
                lemma_fundamental_div_mod_converse(ai, mi, -q - 1, mi - k as int);
            }
        }
        if k == 0 {
            0
        } else {
            m - k
        }
    }
}

} // verus!
