use vstd::prelude::*;
use vstd::arithmetic::div_mod::{lemma_fundamental_div_mod, lemma_multiply_divide_lt};
use vstd::arithmetic::mul::lemma_mul_inequality;

verus! {

/// `r` is the integer square root of `n`: the largest integer whose square is at most `n`.
pub open spec fn is_isqrt(r: int, n: int) -> bool {
    0 <= r && r * r <= n && n < (r + 1) * (r + 1)
}

/// The integer square root of `n`, rounded down.
pub open spec fn isqrt(n: nat) -> nat {
    (choose|r: int| #[trigger] is_isqrt(r, n as int)) as nat
}

proof fn lemma_isqrt_exists(n: nat)
    ensures
        exists|r: int| #[trigger] is_isqrt(r, n as int),
    decreases n,
{
    if n == 0 {
        assert(is_isqrt(0, 0));
    } else {
        lemma_isqrt_exists((n - 1) as nat);
        let r = choose|r: int| #[trigger] is_isqrt(r, (n - 1) as int);
        if (r + 1) * (r + 1) <= n {
            assert((r + 1) * (r + 1) < (r + 2) * (r + 2)) by (nonlinear_arith)
                requires
                    r >= 0,
            ;
            assert(is_isqrt(r + 1, n as int));
        } else {
            assert(is_isqrt(r, n as int));
        }
    }
}

/// No two integers are both the integer square root of `n`.
pub proof fn lemma_isqrt_unique(r1: int, r2: int, n: int)
    requires
        is_isqrt(r1, n),
        is_isqrt(r2, n),
    ensures
        r1 == r2,
{
    if r1 < r2 {
        assert((r1 + 1) * (r1 + 1) <= r2 * r2) by (nonlinear_arith)
            requires
                0 <= r1 + 1 <= r2,
        ;
    } else if r2 < r1 {
        assert((r2 + 1) * (r2 + 1) <= r1 * r1) by (nonlinear_arith)
            requires
                0 <= r2 + 1 <= r1,
        ;
    }
}

/// `isqrt(n)` is the integer square root of `n`, and the only one.
pub proof fn lemma_isqrt(n: nat)
    ensures
        is_isqrt(isqrt(n) as int, n as int),
        forall|r: int| #[trigger] is_isqrt(r, n as int) ==> r == isqrt(n),
{
    lemma_isqrt_exists(n);
    assert forall|r: int| #[trigger] is_isqrt(r, n as int) implies r == isqrt(n) by {
        lemma_isqrt_unique(r, isqrt(n) as int, n as int);
    }
}

/// A Newton step from any positive guess never goes below the integer square root.
pub proof fn lemma_newton_step_lower(n: int, x: int, s: int)
    requires
        1 <= x,
        is_isqrt(s, n),
    ensures
        (x + n / x) / 2 >= s,
{
    let q = n / x;
    lemma_fundamental_div_mod(n, x);
    assert(n < x * (q + 1)) by (nonlinear_arith)
        requires
            n == x * q + n % x,
            n % x < x,
    ;
    if x + q < 2 * s {
        assert(x * (q + 1) <= x * (2 * s - x)) by {
            lemma_mul_inequality(q + 1, 2 * s - x, x);
            assert(x * (q + 1) == (q + 1) * x) by (nonlinear_arith);
            assert(x * (2 * s - x) == (2 * s - x) * x) by (nonlinear_arith);
        }
        assert(x * (2 * s - x) <= s * s) by (nonlinear_arith);
    }
}

/// A Newton step from a guess above the integer square root strictly decreases.
pub proof fn lemma_newton_step_decreases(n: int, x: int)
    requires
        0 <= n,
        1 <= x,
        n < x * x,
    ensures
        n / x < x,
        (x + n / x) / 2 < x,
{
    lemma_multiply_divide_lt(n, x, x);
}

/// The sum that a Newton step halves fits in 128 bits for every guess it can meet.
pub proof fn lemma_newton_sum_fits(n: int, x: int, s: int)
    requires
        0 <= n <= u128::MAX,
        1 <= s <= x <= 0x8000_0000_0000_0000_0000_0000_0000_0000int,
        is_isqrt(s, n),
    ensures
        x + n / x <= u128::MAX,
{
    if n < x * x {
        lemma_newton_step_decreases(n, x);
    } else {
        if x > s {
            assert((s + 1) * (s + 1) <= x * x) by (nonlinear_arith)
                requires
                    0 <= s + 1 <= x,
            ;
        }
        assert(x == s);
        assert(n < s * (s + 3)) by (nonlinear_arith)
            requires
                1 <= s,
                n < (s + 1) * (s + 1),
        ;
        lemma_multiply_divide_lt(n, s, s + 3);
        if s >= 0x1_0000_0000_0000_0000int {
            assert(s * s >= 0x1_0000_0000_0000_0000int * 0x1_0000_0000_0000_0000int)
                by (nonlinear_arith)
                requires
                    s >= 0x1_0000_0000_0000_0000int,
            ;
        }
    }
}

} // verus!
