//! Small arithmetic on 32-bit numbers.
use vstd::arithmetic::div_mod::*;
use vstd::arithmetic::mul::*;
use vstd::prelude::*;

verus! {

/// The greater of two numbers.
pub open spec fn greater(a: int, b: int) -> int {
    if a > b {
        a
    } else {
        b
    }
}

/// The lesser of two numbers.
pub open spec fn lesser(a: int, b: int) -> int {
    if a < b {
        a
    } else {
        b
    }
}

/// How far `a` lies above `b`, nothing where it does not.
pub open spec fn excess(a: int, b: int) -> int {
    greater(a - b, 0)
}

/// `value`, or the greatest 32-bit number where it is over that.
pub open spec fn capped(value: int) -> int {
    lesser(value, u32::MAX as int)
}

/// The least number of parts of size `part` that `value` takes.
pub open spec fn parts_needed(value: int, part: int) -> int {
    (value + part - 1) / part
}

/// The product of two numbers, capped.
pub fn capped_product(a: u32, b: u32) -> (product: u32)
    ensures
        product == capped(a * b),
{
    assert(a as u64 * b as u64 <= 0xffff_ffff * 0xffff_ffff) by (nonlinear_arith)
        requires
            0 <= a as u64 <= 0xffff_ffff,
            0 <= b as u64 <= 0xffff_ffff,
    ;
    let product: u64 = a as u64 * b as u64;
    if product > 0xffff_ffff {
        0xffff_ffff
    } else {
        product as u32
    }
}

/// The sum of two numbers, capped.
pub fn capped_sum(a: u32, b: u32) -> (sum: u32)
    ensures
        sum == capped(a + b),
{
    if b > 0xffff_ffff - a {
        0xffff_ffff
    } else {
        a + b
    }
}

/// The least number of parts of size `part` that `value` takes.
pub fn count_parts(value: u64, part: u64) -> (count: u64)
    requires
        part > 0,
    ensures
        count == parts_needed(value as int, part as int),
        count <= value,
{
    let whole: u64 = value / part;
    let rest: u64 = value % part;
    proof {
        let (v, p) = (value as int, part as int);
        lemma_fundamental_div_mod(v, p);
        let q = v / p;
        let r = v % p;
        if r > 0 {
            assert(v + p - 1 == (q + 1) * p + (r - 1)) by (nonlinear_arith)
                requires
                    v == p * q + r,
            ;
            lemma_fundamental_div_mod_converse(v + p - 1, p, q + 1, r - 1);
            assert(q < v) by (nonlinear_arith)
                requires
                    v == p * q + r,
                    r > 0,
                    p > 0,
                    q >= 0,
            ;
        } else {
            assert(v + p - 1 == q * p + (p - 1)) by (nonlinear_arith)
                requires
                    v == p * q + r,
                    r == 0,
            ;
            lemma_fundamental_div_mod_converse(v + p - 1, p, q, p - 1);
            assert(q <= v) by (nonlinear_arith)
                requires
                    v == p * q + r,
                    r == 0,
                    p > 0,
                    q >= 0,
            ;
        }
        assert(q >= 0) by {
            lemma_div_pos_is_pos(v, p);
        }
    }
    if rest > 0 {
        whole + 1
    } else {
        whole
    }
}

/// What `parts_needed` means: so many parts reach `value`, and one fewer would not.
pub proof fn lemma_parts_needed(value: int, part: int)
    requires
        part > 0,
    ensures
        parts_needed(value, part) * part >= value,
        (parts_needed(value, part) - 1) * part < value,
{
    let total = value + part - 1;
    lemma_fundamental_div_mod(total, part);
    let q = total / part;
    let r = total % part;
    assert(q * part >= value && (q - 1) * part < value) by (nonlinear_arith)
        requires
            total == part * q + r,
            0 <= r < part,
            total == value + part - 1,
    ;
}

/// A capped number is the number itself as far as 32 bits go, and the greatest such number beyond.
pub proof fn law_capped(value: int)
    ensures
        value <= 0xffff_ffff ==> capped(value) == value,
        value > 0xffff_ffff ==> capped(value) == 0xffff_ffff,
{
}

/// Of two numbers, the lesser one exceeds neither, the greater one is exceeded by neither, and both
/// together are the two numbers; the excess is what is left of the first without the second.
pub proof fn law_lesser_and_greater(a: int, b: int)
    ensures
        lesser(a, b) <= a && lesser(a, b) <= b,
        greater(a, b) >= a && greater(a, b) >= b,
        lesser(a, b) + greater(a, b) == a + b,
        excess(a, b) >= 0,
        a >= b ==> b + excess(a, b) == a,
        a <= b ==> excess(a, b) == 0,
{
}

} // verus!
