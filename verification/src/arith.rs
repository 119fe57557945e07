//! Unsigned and signed 256-bit arithmetic with the conventions of the EVM:
//! sums, differences and products wrap, and a zero divisor gives zero.
//!
//! The fixed-width integers of `bnum` do the multi-precision work. Each call
//! into it stands in one function at the top of this file. The contract of
//! such a function is taken from the documentation of `bnum` and is not
//! proved here; everything below those functions is proved from them.

use crate::encoding::{be_value, lemma_be_value_leading_zeros, radix_pow};
use crate::word::{lemma_radix_pow_values, sign_threshold, word_modulus, Word};
use bnum::Uint;
use vstd::arithmetic::div_mod::{lemma_fundamental_div_mod, lemma_mul_mod_noop_general};
use vstd::arithmetic::power::{
    lemma_pow0, lemma_pow1, lemma_pow_adds, lemma_pow_mod_noop, lemma_pow_multiplies,
    lemma_square_is_pow2, pow,
};
use vstd::arithmetic::power2::{lemma2_to64, pow2};
use vstd::prelude::*;

verus! {

/// `bnum::Uint::wrapping_add` on `N`-byte unsigned integers: the sum modulo
/// 256^N. Here and below, `bnum::Uint::from_be_bytes` and `to_be_bytes` take
/// the operands and the result from and to big-endian bytes. The width is
/// at least one byte, and its number of bits fits in 32 bits: `bnum` has no
/// other integers.
#[verifier::external_body]
fn uint_wrapping_add<const N: usize>(a: &[u8; N], b: &[u8; N]) -> (r: [u8; N])
    requires
        0 < N,
        8 * N <= u32::MAX,
    ensures
        be_value(r@) == (be_value(a@) + be_value(b@)) % radix_pow(N as nat),
{
    Uint::<N>::from_be_bytes(*a).wrapping_add(Uint::<N>::from_be_bytes(*b)).to_be_bytes()
}

/// `bnum::Uint::wrapping_sub`: the difference modulo 256^N.
#[verifier::external_body]
fn uint_wrapping_sub<const N: usize>(a: &[u8; N], b: &[u8; N]) -> (r: [u8; N])
    requires
        0 < N,
        8 * N <= u32::MAX,
    ensures
        be_value(r@) == (be_value(a@) - be_value(b@)) % (radix_pow(N as nat) as int),
{
    Uint::<N>::from_be_bytes(*a).wrapping_sub(Uint::<N>::from_be_bytes(*b)).to_be_bytes()
}

/// `bnum::Uint::wrapping_mul`: the product modulo 256^N.
#[verifier::external_body]
fn uint_wrapping_mul<const N: usize>(a: &[u8; N], b: &[u8; N]) -> (r: [u8; N])
    requires
        0 < N,
        8 * N <= u32::MAX,
    ensures
        be_value(r@) == (be_value(a@) * be_value(b@)) % radix_pow(N as nat),
{
    Uint::<N>::from_be_bytes(*a).wrapping_mul(Uint::<N>::from_be_bytes(*b)).to_be_bytes()
}

/// `bnum::Uint::wrapping_div`: the quotient, rounded down. It panics on a
/// zero divisor, which the precondition leaves out.
#[verifier::external_body]
fn uint_wrapping_div<const N: usize>(a: &[u8; N], b: &[u8; N]) -> (r: [u8; N])
    requires
        0 < N,
        8 * N <= u32::MAX,
        be_value(b@) != 0,
    ensures
        be_value(r@) == be_value(a@) / be_value(b@),
{
    Uint::<N>::from_be_bytes(*a).wrapping_div(Uint::<N>::from_be_bytes(*b)).to_be_bytes()
}

/// `bnum::Uint::wrapping_rem`: the remainder of the division. It panics on
/// a zero divisor, which the precondition leaves out.
#[verifier::external_body]
fn uint_wrapping_rem<const N: usize>(a: &[u8; N], b: &[u8; N]) -> (r: [u8; N])
    requires
        0 < N,
        8 * N <= u32::MAX,
        be_value(b@) != 0,
    ensures
        be_value(r@) == be_value(a@) % be_value(b@),
{
    Uint::<N>::from_be_bytes(*a).wrapping_rem(Uint::<N>::from_be_bytes(*b)).to_be_bytes()
}

/// `bnum::Uint::unbounded_shl`: the value shifted left by `n` bits, the bits
/// that leave at the top dropped; zero once `n` reaches the width.
#[verifier::external_body]
pub(crate) fn uint_unbounded_shl<const N: usize>(a: &[u8; N], n: u32) -> (r: [u8; N])
    requires
        0 < N,
        8 * N <= u32::MAX,
    ensures
        be_value(r@) == (be_value(a@) * pow2(n as nat)) % radix_pow(N as nat),
{
    Uint::<N>::from_be_bytes(*a).unbounded_shl(n).to_be_bytes()
}

/// `bnum::Uint::unbounded_shr`: the value shifted right by `n` bits; zero
/// once `n` reaches the width.
#[verifier::external_body]
pub(crate) fn uint_unbounded_shr<const N: usize>(a: &[u8; N], n: u32) -> (r: [u8; N])
    requires
        0 < N,
        8 * N <= u32::MAX,
    ensures
        be_value(r@) == be_value(a@) / pow2(n as nat),
{
    Uint::<N>::from_be_bytes(*a).unbounded_shr(n).to_be_bytes()
}

/// The sum modulo 2^256.
pub open spec fn add_spec(a: nat, b: nat) -> nat {
    (a + b) % word_modulus()
}

/// The difference modulo 2^256.
pub open spec fn sub_spec(a: nat, b: nat) -> nat {
    ((a - b) % (word_modulus() as int)) as nat
}

/// The product modulo 2^256.
pub open spec fn mul_spec(a: nat, b: nat) -> nat {
    (a * b) % word_modulus()
}

/// The quotient rounded down; zero for a zero divisor.
pub open spec fn div_spec(a: nat, b: nat) -> nat {
    if b == 0 {
        0
    } else {
        a / b
    }
}

/// The remainder; zero for a zero divisor.
pub open spec fn rem_spec(a: nat, b: nat) -> nat {
    if b == 0 {
        0
    } else {
        a % b
    }
}

/// The sum of `a` and `b`, taken in full, modulo `n`; zero for `n` zero.
pub open spec fn addmod_spec(a: nat, b: nat, n: nat) -> nat {
    if n == 0 {
        0
    } else {
        (a + b) % n
    }
}

/// The product of `a` and `b`, taken in full, modulo `n`; zero for `n` zero.
pub open spec fn mulmod_spec(a: nat, b: nat, n: nat) -> nat {
    if n == 0 {
        0
    } else {
        (a * b) % n
    }
}

/// The word read as a two's-complement number.
pub open spec fn signed(a: nat) -> int {
    if a < sign_threshold() {
        a as int
    } else {
        a - word_modulus()
    }
}

/// The word that stands for an integer: the integer modulo 2^256.
pub open spec fn unsigned(i: int) -> nat {
    (i % (word_modulus() as int)) as nat
}

/// The distance of an integer from zero.
pub open spec fn magnitude(i: int) -> nat {
    if i < 0 {
        (-i) as nat
    } else {
        i as nat
    }
}

/// The quotient of two integers, rounded toward zero.
pub open spec fn truncated_div(x: int, y: int) -> int
    recommends
        y != 0,
{
    if (x < 0) != (y < 0) {
        -(magnitude(x) / magnitude(y))
    } else {
        (magnitude(x) / magnitude(y)) as int
    }
}

/// The remainder that goes with [`truncated_div`]: it has the sign of `x`.
pub open spec fn truncated_rem(x: int, y: int) -> int
    recommends
        y != 0,
{
    if x < 0 {
        -(magnitude(x) % magnitude(y))
    } else {
        (magnitude(x) % magnitude(y)) as int
    }
}

/// Signed division, rounded toward zero; zero for a zero divisor. The one
/// quotient that does not fit, that of the least number by minus one, wraps
/// to the least number.
pub open spec fn sdiv_spec(a: nat, b: nat) -> nat {
    if b == 0 {
        0
    } else {
        unsigned(truncated_div(signed(a), signed(b)))
    }
}

/// Signed remainder, with the sign of the dividend; zero for a zero divisor.
pub open spec fn srem_spec(a: nat, b: nat) -> nat {
    if b == 0 {
        0
    } else {
        unsigned(truncated_rem(signed(a), signed(b)))
    }
}

/// `a` to the power `b`, modulo 2^256.
pub open spec fn exp_spec(a: nat, b: nat) -> nat {
    (pow(a as int, b) % (word_modulus() as int)) as nat
}

/// One round of square-and-multiply keeps the product of the accumulator
/// and the power that is still owed, modulo `m`.
proof fn lemma_exp_step(r: int, b: int, e: nat, m: int)
    requires
        m > 0,
        e > 0,
    ensures
        e % 2 == 1 ==> (((r * b) % m) * pow((b * b) % m, e / 2)) % m == (r * pow(b, e)) % m,
        e % 2 == 0 ==> (r * pow((b * b) % m, e / 2)) % m == (r * pow(b, e)) % m,
{
    let h = e / 2;
    let sq = b * b;
    let reduced = pow(sq % m, h);
    let even = pow(b, 2 * h);
    lemma_pow_mod_noop(sq, h, m);
    lemma_square_is_pow2(b);
    lemma_pow_multiplies(b, 2, h);
    assert(pow(sq, h) == even);
    assert(reduced % m == even % m);
    if e % 2 == 1 {
        assert(e == 1 + 2 * h);
        lemma_pow_adds(b, 1, 2 * h);
        lemma_pow1(b);
        assert(pow(b, e) == b * even);
        lemma_mul_mod_noop_general(r * b, reduced, m);
        lemma_mul_mod_noop_general(r * b, even, m);
        assert((r * b) * even == r * (b * even)) by (nonlinear_arith);
    } else {
        assert(e == 2 * h);
        lemma_mul_mod_noop_general(r, reduced, m);
        lemma_mul_mod_noop_general(r, even, m);
    }
}

/// Quotient and remainder make up the dividend: `(x / y) * y + x mod y` is
/// `x`, for every non-zero `y`.
pub proof fn lemma_div_rem(x: nat, y: nat)
    requires
        y != 0,
    ensures
        div_spec(x, y) * y + rem_spec(x, y) == x,
{
    lemma_fundamental_div_mod(x as int, y as int);
    assert((x / y) * y == y * (x / y)) by (nonlinear_arith);
}

/// A signed remainder that is not zero has the sign of the dividend.
pub proof fn lemma_srem_sign(x: nat, y: nat)
    requires
        x < word_modulus(),
        y < word_modulus(),
        srem_spec(x, y) != 0,
    ensures
        signed(srem_spec(x, y)) < 0 <==> signed(x) < 0,
{
    let a = magnitude(signed(x)) as int;
    let b = magnitude(signed(y)) as int;
    assert(0 <= a % b < b && a % b <= a) by (nonlinear_arith)
        requires
            a >= 0,
            b > 0,
    ;
}

/// The least signed number divided by minus one does not fit and wraps to
/// the least signed number.
pub proof fn lemma_sdiv_overflow()
    ensures
        sdiv_spec(sign_threshold(), (word_modulus() - 1) as nat) == sign_threshold(),
{
    let a = magnitude(signed(sign_threshold())) as int;
    assert(a / 1 == a);
}

/// With a modulus that is not zero, the modular sum and product are those
/// of the numbers themselves, however large the sum or the product.
pub proof fn lemma_modular_sum_and_product(x: nat, y: nat, n: nat)
    requires
        n != 0,
    ensures
        addmod_spec(x, y, n) == (x + y) % n,
        mulmod_spec(x, y, n) == (x * y) % n,
{
}

/// Division and remainder by zero are zero, unsigned and signed.
pub proof fn lemma_zero_divisor(x: nat)
    ensures
        div_spec(x, 0) == 0,
        rem_spec(x, 0) == 0,
        sdiv_spec(x, 0) == 0,
        srem_spec(x, 0) == 0,
{
}

/// A word as 64 bytes: the same value with 32 zero bytes in front.
fn widen(w: &Word) -> (wide: [u8; 64])
    ensures
        be_value(wide@) == w@,
{
    let mut wide = [0u8; 64];
    let mut i: usize = 0;
    while i < 32
        invariant
            i <= 32,
            forall|j: int| 0 <= j < 32 ==> wide@[j] == 0,
            forall|j: int| 0 <= j < i ==> wide@[32 + j] == w.bytes@[j],
        decreases 32 - i,
    {
        wide[32 + i] = w.bytes[i];
        i += 1;
    }
    proof {
        lemma_be_value_leading_zeros(wide@, 32);
        assert(wide@.subrange(32, 64) =~= w.bytes@);
    }
    wide
}

/// The word that 64 bytes denote, where the value fits in 32.
fn narrow(wide: &[u8; 64]) -> (w: Word)
    requires
        be_value(wide@) < word_modulus(),
    ensures
        w@ == be_value(wide@),
{
    let mut bytes = [0u8; 32];
    let mut i: usize = 0;
    while i < 32
        invariant
            i <= 32,
            forall|j: int| 0 <= j < i ==> bytes@[j] == wide@[32 + j],
        decreases 32 - i,
    {
        bytes[i] = wide[32 + i];
        i += 1;
    }
    proof {
        lemma_radix_pow_values();
        lemma_be_value_leading_zeros(wide@, 32);
        assert(wide@.subrange(32, 64) =~= bytes@);
    }
    Word { bytes }
}

impl Word {
    /// Addition modulo 2^256.
    pub fn wrapping_add(&self, rhs: &Word) -> (r: Word)
        ensures
            r@ == add_spec(self@, rhs@),
    {
        proof {
            lemma_radix_pow_values();
        }
        Word { bytes: uint_wrapping_add(&self.bytes, &rhs.bytes) }
    }

    /// Subtraction modulo 2^256.
    pub fn wrapping_sub(&self, rhs: &Word) -> (r: Word)
        ensures
            r@ == sub_spec(self@, rhs@),
    {
        proof {
            lemma_radix_pow_values();
        }
        Word { bytes: uint_wrapping_sub(&self.bytes, &rhs.bytes) }
    }

    /// Multiplication modulo 2^256.
    pub fn wrapping_mul(&self, rhs: &Word) -> (r: Word)
        ensures
            r@ == mul_spec(self@, rhs@),
    {
        proof {
            lemma_radix_pow_values();
        }
        Word { bytes: uint_wrapping_mul(&self.bytes, &rhs.bytes) }
    }

    /// Unsigned division; a zero divisor gives zero.
    pub fn div(&self, rhs: &Word) -> (r: Word)
        ensures
            r@ == div_spec(self@, rhs@),
    {
        if rhs.is_zero() {
            Word::zero()
        } else {
            Word { bytes: uint_wrapping_div(&self.bytes, &rhs.bytes) }
        }
    }

    /// Unsigned remainder; a zero divisor gives zero.
    pub fn rem(&self, rhs: &Word) -> (r: Word)
        ensures
            r@ == rem_spec(self@, rhs@),
    {
        if rhs.is_zero() {
            Word::zero()
        } else {
            Word { bytes: uint_wrapping_rem(&self.bytes, &rhs.bytes) }
        }
    }

    /// Negation modulo 2^256.
    pub fn wrapping_neg(&self) -> (r: Word)
        ensures
            r@ == unsigned(-(self@ as int)),
    {
        Word::zero().wrapping_sub(self)
    }

    /// The distance from zero of the word read as a signed number.
    fn unsigned_abs(&self) -> (r: Word)
        ensures
            r@ == magnitude(signed(self@)),
    {
        proof {
            self.lemma_bound();
        }
        if self.is_negative() {
            self.wrapping_neg()
        } else {
            *self
        }
    }

    /// Signed division, rounded toward zero; a zero divisor gives zero.
    pub fn sdiv(&self, rhs: &Word) -> (r: Word)
        ensures
            r@ == sdiv_spec(self@, rhs@),
    {
        if rhs.is_zero() {
            return Word::zero();
        }
        proof {
            self.lemma_bound();
            rhs.lemma_bound();
        }
        let quotient = self.unsigned_abs().div(&rhs.unsigned_abs());
        proof {
            let x = magnitude(signed(self@)) as int;
            let y = magnitude(signed(rhs@)) as int;
            assert(0 <= x / y <= x) by (nonlinear_arith)
                requires
                    x >= 0,
                    y > 0,
            ;
        }
        if self.is_negative() != rhs.is_negative() {
            quotient.wrapping_neg()
        } else {
            quotient
        }
    }

    /// Signed remainder, with the sign of the dividend; a zero divisor gives
    /// zero.
    pub fn srem(&self, rhs: &Word) -> (r: Word)
        ensures
            r@ == srem_spec(self@, rhs@),
    {
        if rhs.is_zero() {
            return Word::zero();
        }
        proof {
            self.lemma_bound();
            rhs.lemma_bound();
        }
        let remainder = self.unsigned_abs().rem(&rhs.unsigned_abs());
        proof {
            let x = magnitude(signed(self@)) as int;
            let y = magnitude(signed(rhs@)) as int;
            assert(0 <= x % y < y) by (nonlinear_arith)
                requires
                    x >= 0,
                    y > 0,
            ;
        }
        if self.is_negative() {
            remainder.wrapping_neg()
        } else {
            remainder
        }
    }

    /// Signed less-than.
    pub fn slt(&self, rhs: &Word) -> (r: bool)
        ensures
            r == (signed(self@) < signed(rhs@)),
    {
        proof {
            self.lemma_bound();
            rhs.lemma_bound();
        }
        let negative = self.is_negative();
        if negative != rhs.is_negative() {
            negative
        } else {
            self.lt(rhs)
        }
    }

    /// Signed greater-than.
    pub fn sgt(&self, rhs: &Word) -> (r: bool)
        ensures
            r == (signed(self@) > signed(rhs@)),
    {
        rhs.slt(self)
    }

    /// `self` to the power `exponent`, modulo 2^256, by squaring.
    pub fn exp(&self, exponent: &Word) -> (r: Word)
        ensures
            r@ == exp_spec(self@, exponent@),
    {
        let mut result = Word::from_u8(1);
        let mut base = *self;
        let mut rest = *exponent;
        let ghost m = word_modulus() as int;
        let ghost target = pow(self@ as int, exponent@) % m;
        proof {
            assert(1 * pow(self@ as int, exponent@) == pow(self@ as int, exponent@));
        }
        while !rest.is_zero()
            invariant
                m == word_modulus(),
                (result@ * pow(base@ as int, rest@)) % m == target,
            decreases rest@,
        {
            let odd = rest.bytes[31] % 2 == 1;
            proof {
                lemma_exp_step(result@ as int, base@ as int, rest@, m);
                lemma2_to64();
                assert(rest.bytes@.last() == rest.bytes@[31]);
                assert(odd == (rest@ % 2 == 1));
            }
            if odd {
                result = result.wrapping_mul(&base);
            }
            base = base.wrapping_mul(&base);
            rest = Word { bytes: uint_unbounded_shr(&rest.bytes, 1) };
        }
        proof {
            lemma_pow0(base@ as int);
            result.lemma_bound();
            assert(result@ * 1 == result@);
        }
        result
    }

    /// `(a + b) mod n` with the sum taken in full; zero for `n` zero.
    pub fn addmod(a: &Word, b: &Word, n: &Word) -> (r: Word)
        ensures
            r@ == addmod_spec(a@, b@, n@),
    {
        if n.is_zero() {
            return Word::zero();
        }
        let sum = uint_wrapping_add(&widen(a), &widen(b));
        let rem = uint_wrapping_rem(&sum, &widen(n));
        proof {
            a.lemma_bound();
            b.lemma_bound();
            n.lemma_bound();
            lemma_radix_pow_values();
            let m = word_modulus();
            assert(a@ + b@ < m * m) by (nonlinear_arith)
                requires
                    a@ < m,
                    b@ < m,
                    m > 2,
            ;
            assert((a@ + b@) % (m * m) == a@ + b@) by (nonlinear_arith)
                requires
                    0 <= a@ + b@ < m * m,
            ;
        }
        narrow(&rem)
    }

    /// `(a * b) mod n` with the product taken in full; zero for `n` zero.
    pub fn mulmod(a: &Word, b: &Word, n: &Word) -> (r: Word)
        ensures
            r@ == mulmod_spec(a@, b@, n@),
    {
        if n.is_zero() {
            return Word::zero();
        }
        let product = uint_wrapping_mul(&widen(a), &widen(b));
        let rem = uint_wrapping_rem(&product, &widen(n));
        proof {
            a.lemma_bound();
            b.lemma_bound();
            n.lemma_bound();
            lemma_radix_pow_values();
            let m = word_modulus();
            assert(a@ * b@ < m * m) by (nonlinear_arith)
                requires
                    a@ < m,
                    b@ < m,
            ;
            assert((a@ * b@) % (m * m) == a@ * b@) by (nonlinear_arith)
                requires
                    0 <= a@ * b@ < m * m,
            ;
        }
        narrow(&rem)
    }
}

} // verus!
