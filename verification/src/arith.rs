//! Wrapping arithmetic on `i64`, modelled as arithmetic modulo `2^64`.
//!
//! The matrix strategies accumulate with Rust's wrapping operations, so a
//! result element is the true mathematical value reduced into the value
//! range of `i64`.  Because reduction modulo `2^64` is a ring
//! homomorphism, every order of evaluation — and every algebraic
//! rearrangement such as Strassen's — yields the same element values.

use vstd::prelude::*;

verus! {

use vstd::arithmetic::div_mod::{
    lemma_add_mod_noop,
    lemma_mod_add_multiples_vanish,
    lemma_mod_bound,
    lemma_mod_equivalence,
    lemma_mod_sub_multiples_vanish,
    lemma_mod_twice,
    lemma_mul_mod_noop,
    lemma_small_mod,
    lemma_sub_mod_noop,
};

/// The size of the value space of `i64`.  Wrapping arithmetic reduces
/// every result modulo this constant.
pub open spec fn i64_modulus() -> int {
    0x1_0000_0000_0000_0000
}

/// The unbounded integer `x` reduced into the value range of `i64`,
/// exactly as Rust's wrapping arithmetic on `i64` reduces it.
pub open spec fn wrap_i64(x: int) -> int {
    if x % i64_modulus() > i64::MAX as int {
        x % i64_modulus() - i64_modulus()
    } else {
        x % i64_modulus()
    }
}

/// Two unbounded integers stand for the same wrapped `i64` value.
pub open spec fn congruent(x: int, y: int) -> bool {
    x % i64_modulus() == y % i64_modulus()
}

/// Wrapping changes a value only by a multiple of the modulus.
pub proof fn lemma_wrap_congruent(x: int)
    ensures
        congruent(wrap_i64(x), x),
{
    lemma_mod_twice(x, i64_modulus());
    lemma_mod_sub_multiples_vanish(x % i64_modulus(), i64_modulus());
}

/// A wrapped value always lies in the value range of `i64`.
pub proof fn lemma_wrap_range(x: int)
    ensures
        i64::MIN <= wrap_i64(x) <= i64::MAX,
{
    lemma_mod_bound(x, i64_modulus());
}

/// Wrapping is the identity on values that already fit in `i64`.
pub proof fn lemma_wrap_fixed(x: int)
    requires
        i64::MIN <= x <= i64::MAX,
    ensures
        wrap_i64(x) == x,
{
    if 0 <= x {
        lemma_small_mod(x as nat, i64_modulus() as nat);
    } else {
        lemma_mod_add_multiples_vanish(x, i64_modulus());
        lemma_small_mod((x + i64_modulus()) as nat, i64_modulus() as nat);
    }
}

/// Congruent values that both fit in `i64` are equal.
pub proof fn lemma_congruent_unique(x: int, y: int)
    requires
        congruent(x, y),
        i64::MIN <= x <= i64::MAX,
        i64::MIN <= y <= i64::MAX,
    ensures
        x == y,
{
    lemma_mod_equivalence(x, y, i64_modulus());
    let d = x - y;
    if d >= 0 {
        lemma_small_mod(d as nat, i64_modulus() as nat);
    } else {
        lemma_mod_add_multiples_vanish(d, i64_modulus());
        lemma_small_mod((d + i64_modulus()) as nat, i64_modulus() as nat);
    }
}

/// A value congruent to `x` and lying in the range of `i64` is `wrap_i64(x)`.
pub proof fn lemma_congruent_wrap(v: int, x: int)
    requires
        congruent(v, x),
        i64::MIN <= v <= i64::MAX,
    ensures
        v == wrap_i64(x),
{
    lemma_wrap_congruent(x);
    lemma_wrap_range(x);
    lemma_congruent_unique(v, wrap_i64(x));
}

/// Congruence is preserved by addition.
pub proof fn lemma_congruent_add(x: int, y: int, x2: int, y2: int)
    requires
        congruent(x, x2),
        congruent(y, y2),
    ensures
        congruent(x + y, x2 + y2),
{
    lemma_add_mod_noop(x, y, i64_modulus());
    lemma_add_mod_noop(x2, y2, i64_modulus());
}

/// Congruence is preserved by subtraction.
pub proof fn lemma_congruent_sub(x: int, y: int, x2: int, y2: int)
    requires
        congruent(x, x2),
        congruent(y, y2),
    ensures
        congruent(x - y, x2 - y2),
{
    lemma_sub_mod_noop(x, y, i64_modulus());
    lemma_sub_mod_noop(x2, y2, i64_modulus());
}

/// Congruence is preserved by multiplication.
pub proof fn lemma_congruent_mul(x: int, y: int, x2: int, y2: int)
    requires
        congruent(x, x2),
        congruent(y, y2),
    ensures
        congruent(x * y, x2 * y2),
{
    lemma_mul_mod_noop(x, y, i64_modulus());
    lemma_mul_mod_noop(x2, y2, i64_modulus());
}

/// Wrapping addition of matrix elements.
pub fn wadd(x: i64, y: i64) -> (r: i64)
    ensures
        r as int == wrap_i64(x + y),
{
    proof {
        if x + y > i64::MAX {
            lemma_small_mod((x + y) as nat, i64_modulus() as nat);
        } else if x + y < i64::MIN {
            lemma_mod_add_multiples_vanish(x + y, i64_modulus());
            lemma_small_mod((x + y + i64_modulus()) as nat, i64_modulus() as nat);
        } else {
            lemma_wrap_fixed(x + y);
        }
    }
    x.wrapping_add(y)
}

/// Wrapping subtraction of matrix elements.
pub fn wsub(x: i64, y: i64) -> (r: i64)
    ensures
        r as int == wrap_i64(x - y),
{
    proof {
        if x - y > i64::MAX {
            lemma_small_mod((x - y) as nat, i64_modulus() as nat);
        } else if x - y < i64::MIN {
            lemma_mod_add_multiples_vanish(x - y, i64_modulus());
            lemma_small_mod((x - y + i64_modulus()) as nat, i64_modulus() as nat);
        } else {
            lemma_wrap_fixed(x - y);
        }
    }
    x.wrapping_sub(y)
}

/// Wrapping multiplication of matrix elements.
pub fn wmul(x: i64, y: i64) -> (r: i64)
    ensures
        r as int == wrap_i64(x * y),
{
    proof {
        lemma_mod_bound(x * y, i64_modulus());
    }
    x.wrapping_mul(y)
}

} // verus!
