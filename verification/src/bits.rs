//! The bitwise side of a word: the logical operations, the shifts, byte
//! extraction and sign extension.

use crate::arith::{signed, uint_unbounded_shl, uint_unbounded_shr, unsigned};
use crate::encoding::{
    be_bytes, be_value, lemma_be_bytes_of_value, lemma_be_value_complement, lemma_be_value_concat,
    lemma_be_value_digit, lemma_be_value_sign, lemma_be_value_suffix, lemma_be_value_zero,
    lemma_radix_pow_adds, lemma_radix_pow_positive, radix_pow,
};
use crate::word::{lemma_radix_pow_values, sign_threshold, word_modulus, Word};
use vstd::arithmetic::div_mod::lemma_fundamental_div_mod_converse;
use vstd::arithmetic::power2::{lemma_pow2_pos, pow2};
use vstd::prelude::*;

verus! {

/// Two byte strings of one length combined by a bitwise and.
pub open spec fn and_bytes(x: Seq<u8>, y: Seq<u8>) -> Seq<u8> {
    Seq::new(x.len(), |i: int| x[i] & y[i])
}

/// Two byte strings of one length combined by a bitwise or.
pub open spec fn or_bytes(x: Seq<u8>, y: Seq<u8>) -> Seq<u8> {
    Seq::new(x.len(), |i: int| x[i] | y[i])
}

/// Two byte strings of one length combined by a bitwise exclusive or.
pub open spec fn xor_bytes(x: Seq<u8>, y: Seq<u8>) -> Seq<u8> {
    Seq::new(x.len(), |i: int| x[i] ^ y[i])
}

/// The bitwise and of two words, byte by byte.
pub open spec fn and_spec(a: nat, b: nat) -> nat {
    be_value(and_bytes(be_bytes(a, 32), be_bytes(b, 32)))
}

/// The bitwise or of two words, byte by byte.
pub open spec fn or_spec(a: nat, b: nat) -> nat {
    be_value(or_bytes(be_bytes(a, 32), be_bytes(b, 32)))
}

/// The bitwise exclusive or of two words, byte by byte.
pub open spec fn xor_spec(a: nat, b: nat) -> nat {
    be_value(xor_bytes(be_bytes(a, 32), be_bytes(b, 32)))
}

/// The complement of a word: every bit flipped.
pub open spec fn not_spec(a: nat) -> nat {
    (word_modulus() - 1 - a) as nat
}

/// Byte `i` of `x`, counted from the most significant end; zero from 32 on.
pub open spec fn byte_spec(i: nat, x: nat) -> nat {
    if i >= 32 {
        0
    } else {
        (x / radix_pow((31 - i) as nat)) % 256
    }
}

/// `x` shifted left by `n` bits; zero from 256 on.
pub open spec fn shl_spec(n: nat, x: nat) -> nat {
    if n >= 256 {
        0
    } else {
        (x * pow2(n)) % word_modulus()
    }
}

/// `x` shifted right by `n` bits, zeros coming in; zero from 256 on.
pub open spec fn shr_spec(n: nat, x: nat) -> nat {
    if n >= 256 {
        0
    } else {
        x / pow2(n)
    }
}

/// `x` shifted right by `n` bits, copies of the sign bit coming in: the
/// signed value divided by 2^n and rounded down. From 256 on only the sign
/// is left.
pub open spec fn sar_spec(n: nat, x: nat) -> nat {
    if n >= 256 {
        if x >= sign_threshold() {
            (word_modulus() - 1) as nat
        } else {
            0
        }
    } else {
        unsigned(signed(x) / (pow2(n) as int))
    }
}

/// The low `k + 1` bytes of `x` read as a signed number, as a word: the bit
/// `8k + 7` of `x` fills all the bits above it. From `k = 31` on that is `x`.
pub open spec fn signextend_spec(k: nat, x: nat) -> nat {
    if k >= 31 {
        x
    } else {
        let span = radix_pow(k + 1);
        let low = x % span;
        if low >= 128 * radix_pow(k) {
            (word_modulus() - span + low) as nat
        } else {
            low
        }
    }
}

/// Rounding down moves a negative quotient one further from zero than the
/// quotient of the complement.
proof fn lemma_floor_div_negative(y: int, d: int)
    requires
        y >= 0,
        d > 0,
    ensures
        (-(y + 1)) / d == -(y / d) - 1,
{
    let q = y / d;
    let r = y % d;
    vstd::arithmetic::div_mod::lemma_fundamental_div_mod(y, d);
    assert(0 <= r < d) by (nonlinear_arith)
        requires
            r == y % d,
            d > 0,
    ;
    assert(-(y + 1) == (-q - 1) * d + (d - 1 - r)) by (nonlinear_arith)
        requires
            y == d * q + r,
    ;
    lemma_fundamental_div_mod_converse(-(y + 1), d, -q - 1, d - 1 - r);
}

/// Sign extension from the last byte changes nothing.
pub proof fn lemma_signextend_from_last_byte(x: nat)
    ensures
        signextend_spec(31, x) == x,
{
}

/// There is no byte 32 or beyond: byte extraction gives zero there.
pub proof fn lemma_byte_past_the_word(i: nat, x: nat)
    requires
        i >= 32,
    ensures
        byte_spec(i, x) == 0,
{
}

/// A shift by 256 bits leaves nothing of a word but, in an arithmetic
/// shift, its sign: zero for a word that is not negative, all ones for one
/// that is.
pub proof fn lemma_shift_by_the_width(x: nat)
    requires
        x < word_modulus(),
    ensures
        shl_spec(256, x) == 0,
        shr_spec(256, x) == 0,
        sar_spec(256, x) == if signed(x) >= 0 {
            0
        } else {
            not_spec(0)
        },
{
}

impl Word {
    /// Bitwise and.
    pub fn bitand(&self, rhs: &Word) -> (r: Word)
        ensures
            r@ == and_spec(self@, rhs@),
    {
        let mut bytes = [0u8; 32];
        let mut i: usize = 0;
        while i < 32
            invariant
                i <= 32,
                forall|j: int| 0 <= j < i ==> bytes@[j] == self.bytes@[j] & rhs.bytes@[j],
            decreases 32 - i,
        {
            bytes[i] = self.bytes[i] & rhs.bytes[i];
            i += 1;
        }
        proof {
            lemma_be_bytes_of_value(self.bytes@);
            lemma_be_bytes_of_value(rhs.bytes@);
            assert(bytes@ =~= and_bytes(be_bytes(self@, 32), be_bytes(rhs@, 32)));
        }
        Word { bytes }
    }

    /// Bitwise or.
    pub fn bitor(&self, rhs: &Word) -> (r: Word)
        ensures
            r@ == or_spec(self@, rhs@),
    {
        let mut bytes = [0u8; 32];
        let mut i: usize = 0;
        while i < 32
            invariant
                i <= 32,
                forall|j: int| 0 <= j < i ==> bytes@[j] == self.bytes@[j] | rhs.bytes@[j],
            decreases 32 - i,
        {
            bytes[i] = self.bytes[i] | rhs.bytes[i];
            i += 1;
        }
        proof {
            lemma_be_bytes_of_value(self.bytes@);
            lemma_be_bytes_of_value(rhs.bytes@);
            assert(bytes@ =~= or_bytes(be_bytes(self@, 32), be_bytes(rhs@, 32)));
        }
        Word { bytes }
    }

    /// Bitwise exclusive or.
    pub fn bitxor(&self, rhs: &Word) -> (r: Word)
        ensures
            r@ == xor_spec(self@, rhs@),
    {
        let mut bytes = [0u8; 32];
        let mut i: usize = 0;
        while i < 32
            invariant
                i <= 32,
                forall|j: int| 0 <= j < i ==> bytes@[j] == self.bytes@[j] ^ rhs.bytes@[j],
            decreases 32 - i,
        {
            bytes[i] = self.bytes[i] ^ rhs.bytes[i];
            i += 1;
        }
        proof {
            lemma_be_bytes_of_value(self.bytes@);
            lemma_be_bytes_of_value(rhs.bytes@);
            assert(bytes@ =~= xor_bytes(be_bytes(self@, 32), be_bytes(rhs@, 32)));
        }
        Word { bytes }
    }

    /// Bitwise complement.
    pub fn not(&self) -> (r: Word)
        ensures
            r@ == not_spec(self@),
    {
        let mut bytes = [0u8; 32];
        let mut i: usize = 0;
        while i < 32
            invariant
                i <= 32,
                forall|j: int| 0 <= j < i ==> bytes@[j] as int == 255 - self.bytes@[j],
            decreases 32 - i,
        {
            let b = self.bytes[i];
            assert(!b == 255 - b) by (bit_vector);
            bytes[i] = !b;
            i += 1;
        }
        proof {
            lemma_be_value_complement(self.bytes@, bytes@);
            lemma_radix_pow_values();
        }
        Word { bytes }
    }

    /// Byte `index` of `self`, counted from the most significant end; zero
    /// where `index` is 32 or more.
    pub fn byte(&self, index: &Word) -> (r: Word)
        ensures
            r@ == byte_spec(index@, self@),
    {
        match index.as_u64() {
            Some(i) => {
                if i < 32 {
                    proof {
                        lemma_be_value_digit(self.bytes@, i as int);
                    }
                    Word::from_u8(self.bytes[i as usize])
                } else {
                    Word::zero()
                }
            },
            None => Word::zero(),
        }
    }

    /// `self` shifted left by `shift` bits.
    pub fn shl(&self, shift: &Word) -> (r: Word)
        ensures
            r@ == shl_spec(shift@, self@),
    {
        match shift.as_u64() {
            Some(n) => {
                if n < 256 {
                    proof {
                        lemma_radix_pow_values();
                    }
                    Word { bytes: uint_unbounded_shl(&self.bytes, n as u32) }
                } else {
                    Word::zero()
                }
            },
            None => Word::zero(),
        }
    }

    /// `self` shifted right by `shift` bits, zeros coming in.
    pub fn shr(&self, shift: &Word) -> (r: Word)
        ensures
            r@ == shr_spec(shift@, self@),
    {
        match shift.as_u64() {
            Some(n) => {
                if n < 256 {
                    Word { bytes: uint_unbounded_shr(&self.bytes, n as u32) }
                } else {
                    Word::zero()
                }
            },
            None => Word::zero(),
        }
    }

    /// `self` shifted right by `shift` bits, copies of the sign bit coming
    /// in.
    pub fn sar(&self, shift: &Word) -> (r: Word)
        ensures
            r@ == sar_spec(shift@, self@),
    {
        let negative = self.is_negative();
        proof {
            self.lemma_bound();
        }
        let amount: u32 = match shift.as_u64() {
            Some(n) => {
                if n < 256 {
                    n as u32
                } else {
                    256
                }
            },
            None => 256,
        };
        if amount >= 256 {
            if negative {
                Word::zero().not()
            } else {
                Word::zero()
            }
        } else if negative {
            let flipped = self.not();
            let shifted = Word { bytes: uint_unbounded_shr(&flipped.bytes, amount) };
            proof {
                let d = pow2(amount as nat) as int;
                lemma_pow2_pos(amount as nat);
                lemma_floor_div_negative(flipped@ as int, d);
                assert(0 <= flipped@ as int / d <= flipped@) by (nonlinear_arith)
                    requires
                        flipped@ >= 0,
                        d > 0,
                ;
            }
            shifted.not()
        } else {
            proof {
                let d = pow2(amount as nat) as int;
                lemma_pow2_pos(amount as nat);
                assert(0 <= self@ as int / d <= self@) by (nonlinear_arith)
                    requires
                        self@ >= 0,
                        d > 0,
                ;
            }
            Word { bytes: uint_unbounded_shr(&self.bytes, amount) }
        }
    }

    /// `value` with the sign of its byte `self` (counted from the least
    /// significant end) copied into all higher bytes.
    pub fn signextend(&self, value: &Word) -> (r: Word)
        ensures
            r@ == signextend_spec(self@, value@),
    {
        let k: usize = match self.as_u64() {
            Some(k) => {
                if k < 31 {
                    k as usize
                } else {
                    return *value;
                }
            },
            None => {
                return *value;
            },
        };
        let first: usize = 31 - k;
        let fill: u8 = if value.bytes[first] >= 128 {
            255
        } else {
            0
        };
        let mut bytes = value.bytes;
        let mut i: usize = 0;
        while i < first
            invariant
                i <= first,
                first < 32,
                forall|j: int| 0 <= j < i ==> bytes@[j] == fill,
                forall|j: int| i <= j < 32 ==> bytes@[j] == value.bytes@[j],
            decreases first - i,
        {
            bytes[i] = fill;
            i += 1;
        }
        proof {
            let head = bytes@.subrange(0, first as int);
            let tail = bytes@.subrange(first as int, 32);
            let span = radix_pow((k + 1) as nat);
            let low = value@ % span;
            assert(bytes@ =~= head + tail);
            assert(tail =~= value.bytes@.subrange(32 - (k + 1), 32));
            lemma_be_value_concat(head, tail);
            lemma_be_value_suffix(value.bytes@, k + 1);
            assert(be_value(tail) == low);
            lemma_be_value_sign(tail);
            assert(tail[0] == value.bytes@[first as int]);
            assert((fill == 255) == (low >= 128 * radix_pow(k as nat)));
            lemma_radix_pow_adds(first as nat, (k + 1) as nat);
            lemma_radix_pow_values();
            assert(radix_pow(first as nat) * span == word_modulus());
            if fill == 0 {
                lemma_be_value_zero(head);
                assert(be_value(head) * span == 0);
                assert(be_value(bytes@) == low);
            } else {
                let zeros = Seq::new(first as nat, |j: int| 0u8);
                lemma_be_value_zero(zeros);
                lemma_be_value_complement(zeros, head);
                let p = radix_pow(first as nat) as int;
                let q = span as int;
                assert(be_value(head) == p - 1);
                assert((p - 1) * q == p * q - q) by (nonlinear_arith);
                assert(be_value(bytes@) == word_modulus() - span + low);
            }
        }
        Word { bytes }
    }
}

} // verus!
