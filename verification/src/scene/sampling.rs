use vstd::arithmetic::div_mod::{
    lemma_div_decreases, lemma_div_denominator, lemma_div_pos_is_pos, lemma_fundamental_div_mod,
};
use vstd::arithmetic::power::{lemma_pow_positive, pow};
use vstd::prelude::*;

verus! {

/// The base-`p` digits of `i` appended, least significant first, to the digits of `acc`:
/// for `acc == 0` this is the number whose base-`p` digits are those of `i` in reverse.
pub open spec fn reversed_digits(p: int, i: int, acc: int) -> int
    decreases i,
{
    if i <= 0 || p < 2 {
        acc
    } else {
        proof {
            lemma_div_decreases(i, p);
        }
        reversed_digits(p, i / p, acc * p + i % p)
    }
}

/// The number of base-`p` digits of `i` (none for `0`).
pub open spec fn num_digits(p: int, i: int) -> nat
    decreases i,
{
    if i <= 0 || p < 2 {
        0
    } else {
        proof {
            lemma_div_decreases(i, p);
        }
        1 + num_digits(p, i / p)
    }
}

proof fn lemma_reversed_digits_grows(p: int, i: int, acc: int)
    requires
        p >= 2,
        acc >= 0,
    ensures
        reversed_digits(p, i, acc) >= acc,
    decreases i,
{
    if i > 0 {
        lemma_div_decreases(i, p);
        assert(acc * p + i % p >= acc) by (nonlinear_arith)
            requires
                p >= 2,
                acc >= 0,
                i % p >= 0,
        ;
        lemma_reversed_digits_grows(p, i / p, acc * p + i % p);
    }
}

proof fn lemma_num_digits_bound(p: int, i: int)
    requires
        p >= 2,
        i >= 0,
    ensures
        num_digits(p, i) <= i,
    decreases i,
{
    if i > 0 {
        lemma_div_decreases(i, p);
        lemma_div_pos_is_pos(i, p);
        lemma_num_digits_bound(p, i / p);
    }
}

proof fn lemma_reversed_digits_bound(p: int, i: int, acc: int)
    requires
        p >= 2,
        acc >= 0,
    ensures
        reversed_digits(p, i, acc) + 1 <= (acc + 1) * pow(p, num_digits(p, i)),
    decreases i,
{
    reveal(pow);
    if i > 0 {
        lemma_div_decreases(i, p);
        let q = i / p;
        let d = i % p;
        lemma_reversed_digits_bound(p, q, acc * p + d);
        let big_p = pow(p, num_digits(p, q));
        lemma_pow_positive(p, num_digits(p, q));
        assert(num_digits(p, i) == 1 + num_digits(p, q));
        assert(pow(p, num_digits(p, i)) == p * big_p);
        assert(reversed_digits(p, i, acc) == reversed_digits(p, q, acc * p + d));
        assert((acc * p + d + 1) * big_p <= (acc + 1) * (p * big_p)) by (nonlinear_arith)
            requires
                0 <= d < p,
                acc >= 0,
                big_p > 0,
        ;
        assert(acc * p + d >= 0) by (nonlinear_arith)
            requires
                0 <= d,
                acc >= 0,
                p >= 2,
        ;
    }
}

/// The digit reversal of `i` in base `p` lies below `p` to the number of digits of `i`, so
/// the radical inverse (their quotient) lies in the unit interval `[0, 1)`.
pub proof fn lemma_radical_inverse_in_unit_interval(p: int, i: int)
    requires
        p >= 2,
        i >= 0,
    ensures
        0 <= reversed_digits(p, i, 0) < pow(p, num_digits(p, i)),
{
    lemma_reversed_digits_bound(p, i, 0);
    lemma_reversed_digits_grows(p, i, 0);
}

/// Digit `k` of `i` in base `p`, counting from the least significant digit (position `0`).
pub open spec fn digit(p: int, i: int, k: nat) -> int {
    (i / pow(p, k)) % p
}

/// The number written in base `p` with the digits `0, 1, ..., n - 1` of `i`, digit `0` most
/// significant: the sum over `k < n` of `digit(p, i, k) * p^(n - 1 - k)`.
pub open spec fn digits_in_reverse(p: int, i: int, n: nat) -> int
    decreases n,
{
    if n == 0 {
        0
    } else {
        digits_in_reverse(p, i, (n - 1) as nat) * p + digit(p, i, (n - 1) as nat)
    }
}

/// Digit `k + 1` of `i` is digit `k` of `i / p`.
proof fn lemma_digit_shift(p: int, i: int, k: nat)
    requires
        p >= 2,
        i >= 0,
    ensures
        digit(p, i, k + 1) == digit(p, i / p, k),
{
    reveal(pow);
    lemma_pow_positive(p, k);
    assert(pow(p, k + 1) == p * pow(p, k));
    lemma_div_denominator(i, p, pow(p, k));
}

/// Taking digit `0` of `i` off the reversal: it becomes the most significant digit, before
/// the reversal of the digits of `i / p`.
proof fn lemma_digits_in_reverse_first(p: int, i: int, m: nat)
    requires
        p >= 2,
        i >= 0,
    ensures
        digits_in_reverse(p, i, m + 1) == (i % p) * pow(p, m) + digits_in_reverse(p, i / p, m),
    decreases m,
{
    reveal(pow);
    lemma_div_pos_is_pos(i, p);
    if m == 0 {
        assert(pow(p, 0) == 1);
        assert(i / 1 == i);
        assert(digit(p, i, 0) == i % p);
        assert(digits_in_reverse(p, i, 0) == 0);
        assert(digits_in_reverse(p, i, 1) == digits_in_reverse(p, i, 0) * p + digit(p, i, 0));
    } else {
        let m1 = (m - 1) as nat;
        lemma_digits_in_reverse_first(p, i, m1);
        lemma_digit_shift(p, i, m1);
        assert(m1 + 1 == m);
        assert(digits_in_reverse(p, i, m + 1) == digits_in_reverse(p, i, m) * p + digit(p, i, m));
        assert(digits_in_reverse(p, i / p, m) == digits_in_reverse(p, i / p, m1) * p + digit(
            p,
            i / p,
            m1,
        ));
        let a = i % p;
        let b = pow(p, m1);
        let c = digits_in_reverse(p, i / p, m1);
        assert(pow(p, m) == p * b);
        assert((a * b + c) * p + digit(p, i / p, m1) == a * (p * b) + (c * p + digit(
            p,
            i / p,
            m1,
        ))) by (nonlinear_arith);
    }
}

/// Appending the digits of `i` to `acc` gives `acc` shifted by the number of digits of `i`,
/// plus the digits of `i` in reverse order.
proof fn lemma_reversed_digits_positional(p: int, i: int, acc: int)
    requires
        p >= 2,
        i >= 0,
    ensures
        reversed_digits(p, i, acc) == acc * pow(p, num_digits(p, i)) + digits_in_reverse(
            p,
            i,
            num_digits(p, i),
        ),
    decreases i,
{
    reveal(pow);
    if i == 0 {
        assert(pow(p, 0) == 1);
    } else {
        lemma_div_decreases(i, p);
        lemma_div_pos_is_pos(i, p);
        let q = i / p;
        let d = i % p;
        let m = num_digits(p, q);
        lemma_reversed_digits_positional(p, q, acc * p + d);
        lemma_digits_in_reverse_first(p, i, m);
        let b = pow(p, m);
        assert(num_digits(p, i) == m + 1);
        assert(pow(p, m + 1) == p * b);
        assert((acc * p + d) * b == acc * (p * b) + d * b) by (nonlinear_arith);
    }
}

/// The number of base-`p` digits of `i`: none for `0`, and for `i > 0` the `n` with
/// `p^(n - 1) <= i < p^n`.
proof fn lemma_num_digits_brackets(p: int, i: int)
    requires
        p >= 2,
        i >= 0,
    ensures
        i == 0 ==> num_digits(p, i) == 0,
        i > 0 ==> num_digits(p, i) >= 1 && pow(p, (num_digits(p, i) - 1) as nat) <= i < pow(
            p,
            num_digits(p, i),
        ),
    decreases i,
{
    reveal(pow);
    if i > 0 {
        lemma_div_decreases(i, p);
        lemma_div_pos_is_pos(i, p);
        lemma_fundamental_div_mod(i, p);
        let q = i / p;
        let d = i % p;
        lemma_num_digits_brackets(p, q);
        let m = num_digits(p, q);
        assert(num_digits(p, i) == m + 1);
        lemma_pow_positive(p, m);
        assert(pow(p, m + 1) == p * pow(p, m));
        if q == 0 {
            assert(m == 0);
            assert(pow(p, 0) == 1);
        } else {
            let m1 = (m - 1) as nat;
            assert(pow(p, m) == p * pow(p, m1));
            assert(pow(p, m) <= i) by (nonlinear_arith)
                requires
                    pow(p, m) == p * pow(p, m1),
                    pow(p, m1) <= q,
                    i == p * q + d,
                    d >= 0,
                    p >= 2,
            ;
        }
        assert(i < p * pow(p, m)) by (nonlinear_arith)
            requires
                q < pow(p, m),
                i == p * q + d,
                d < p,
                p >= 2,
        ;
    }
}

/// The digit reversal of `i` in base `p` is made of the base-`p` digits of `i` themselves:
/// with `n` the number of digits of `i` (none for `0`; otherwise `p^(n - 1) <= i < p^n`),
/// it is the sum over `k < n` of `digit(p, i, k) * p^(n - 1 - k)`.
pub proof fn lemma_reversal_is_digit_sum(p: int, i: int)
    requires
        p >= 2,
        i >= 0,
    ensures
        reversed_digits(p, i, 0) == digits_in_reverse(p, i, num_digits(p, i)),
        i == 0 ==> num_digits(p, i) == 0,
        i > 0 ==> num_digits(p, i) >= 1 && pow(p, (num_digits(p, i) - 1) as nat) <= i < pow(
            p,
            num_digits(p, i),
        ),
{
    lemma_reversed_digits_positional(p, i, 0);
    lemma_num_digits_brackets(p, i);
}

/// The integer part of the radical inverse of `i` in base `p` (the first step of a Halton
/// sequence): the digit reversal of `i` and its number of digits, or `None` when the
/// reversal does not fit an `i32`. The radical inverse itself is the reversal divided by
/// `p` to the number of digits.
pub fn radical_inverse_digits(p: i32, i: usize) -> (result: Option<(i32, u32)>)
    requires
        p >= 2,
        i <= i32::MAX,
    ensures
        match result {
            Some((reversed, digits)) => reversed == reversed_digits(p as int, i as int, 0)
                && digits == num_digits(p as int, i as int) && reversed == digits_in_reverse(
                p as int,
                i as int,
                digits as nat,
            ) && (i == 0 ==> digits == 0) && (i > 0 ==> digits >= 1 && pow(
                p as int,
                (digits - 1) as nat,
            ) <= i < pow(p as int, digits as nat)),
            None => reversed_digits(p as int, i as int, 0) > i32::MAX && digits_in_reverse(
                p as int,
                i as int,
                num_digits(p as int, i as int),
            ) > i32::MAX,
        },
{
    let mut reversed: i32 = 0;
    let mut digits: u32 = 0;
    let mut i_loop: i32 = i as i32;
    proof {
        lemma_num_digits_bound(p as int, i as int);
        lemma_reversal_is_digit_sum(p as int, i as int);
    }
    while i_loop != 0
        invariant
            p >= 2,
            0 <= i_loop <= i,
            i <= i32::MAX,
            reversed >= 0,
            reversed_digits(p as int, i_loop as int, reversed as int) == reversed_digits(
                p as int,
                i as int,
                0,
            ),
            digits + num_digits(p as int, i_loop as int) == num_digits(p as int, i as int),
            reversed_digits(p as int, i as int, 0) == digits_in_reverse(
                p as int,
                i as int,
                num_digits(p as int, i as int),
            ),
            num_digits(p as int, i as int) <= i,
        decreases i_loop,
    {
        let next = i_loop / p;
        proof {
            lemma_fundamental_div_mod(i_loop as int, p as int);
            lemma_div_decreases(i_loop as int, p as int);
            assert(next * p <= i_loop) by (nonlinear_arith)
                requires
                    next == i_loop as int / p as int,
                    i_loop as int == p * (i_loop as int / p as int) + i_loop as int % p as int,
                    i_loop as int % p as int >= 0,
                    p * next == next * p,
            ;
            assert(next * p >= 0) by (nonlinear_arith)
                requires
                    next >= 0,
                    p >= 2,
            ;
            lemma_reversed_digits_grows(
                p as int,
                next as int,
                reversed as int * p as int + i_loop as int % p as int,
            );
        }
        let digit = i_loop - (next * p);
        let scaled = reversed.checked_mul(p);
        match scaled {
            None => {
                assert(reversed as int * p as int + i_loop as int % p as int > i32::MAX);
                return None;
            },
            Some(scaled) => {
                match scaled.checked_add(digit) {
                    None => {
                        return None;
                    },
                    Some(sum) => {
                        reversed = sum;
                    },
                }
            },
        }
        digits += 1;
        i_loop = next;
    }
    Some((reversed, digits))
}

} // verus!
