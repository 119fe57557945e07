//! 256-bit machine words, stored as 32 big-endian bytes and read as a natural
//! number below 2^256.

use crate::encoding::{
    be_bytes, be_value, lemma_be_bytes_of_value, lemma_be_value_bound, lemma_be_value_concat,
    lemma_be_value_injective, lemma_be_value_leading_zeros, lemma_be_value_order,
    lemma_be_value_push, lemma_be_value_sign, lemma_be_value_zero, lemma_radix_pow_adds,
    lemma_radix_pow_increases, lemma_significant_bytes, radix_pow, significant_bytes,
};
use vstd::prelude::*;

verus! {

/// 2^256, the number of words.
pub open spec fn word_modulus() -> nat {
    0x1_0000_0000_0000_0000_0000_0000_0000_0000_0000_0000_0000_0000_0000_0000_0000_0000nat
}

/// 2^255, the least word that is negative when read as a signed number.
pub open spec fn sign_threshold() -> nat {
    0x8000_0000_0000_0000_0000_0000_0000_0000_0000_0000_0000_0000_0000_0000_0000_0000nat
}

/// 2^64.
pub open spec fn limb_modulus() -> nat {
    0x1_0000_0000_0000_0000nat
}

/// The powers of 256 that the words are measured by.
pub proof fn lemma_radix_pow_values()
    ensures
        radix_pow(1) == 256,
        radix_pow(8) == limb_modulus(),
        radix_pow(31) * 128 == sign_threshold(),
        radix_pow(32) == word_modulus(),
        radix_pow(64) == word_modulus() * word_modulus(),
{
    reveal_with_fuel(radix_pow, 9);
    assert(radix_pow(8) == limb_modulus());
    lemma_radix_pow_adds(8, 8);
    lemma_radix_pow_adds(16, 8);
    lemma_radix_pow_adds(24, 7);
    lemma_radix_pow_adds(24, 8);
    lemma_radix_pow_adds(32, 32);
    assert(radix_pow(7) == 0x100_0000_0000_0000);
    assert(radix_pow(16) == 0x1_0000_0000_0000_0000_0000_0000_0000_0000nat);
    assert(radix_pow(24) == 0x1_0000_0000_0000_0000_0000_0000_0000_0000_0000_0000_0000_0000nat);
}

/// A 32-byte string read as a word and written back is the same string.
pub proof fn lemma_bytes_round_trip(bytes: Seq<u8>)
    requires
        bytes.len() == 32,
    ensures
        be_bytes(be_value(bytes), 32) == bytes,
{
    lemma_be_bytes_of_value(bytes);
}

/// A 256-bit word.
#[derive(Clone, Copy, Debug, PartialEq, Eq)]
pub struct Word {
    /// The 32 bytes of the word, most significant first.
    pub bytes: [u8; 32],
}

impl View for Word {
    type V = nat;

    /// The word read as an unsigned number.
    open spec fn view(&self) -> nat {
        be_value(self.bytes@)
    }
}

impl Word {
    /// The word of value zero.
    pub fn zero() -> (w: Word)
        ensures
            w@ == 0,
    {
        let w = Word { bytes: [0u8; 32] };
        proof {
            lemma_be_value_zero(w.bytes@);
        }
        w
    }

    /// Every word is below 2^256.
    pub proof fn lemma_bound(self)
        ensures
            self@ < word_modulus(),
    {
        lemma_be_value_bound(self.bytes@);
        lemma_radix_pow_values();
    }

    /// Words of one value are one word.
    pub proof fn lemma_injective(self, other: Word)
        requires
            self@ == other@,
        ensures
            self == other,
    {
        lemma_be_value_injective(self.bytes@, other.bytes@);
        assert(self.bytes =~= other.bytes);
    }

    /// The word whose big-endian bytes are `bytes`.
    pub fn from_be_bytes(bytes: [u8; 32]) -> (w: Word)
        ensures
            w.bytes == bytes,
            w@ == be_value(bytes@),
    {
        Word { bytes }
    }

    /// The 32 big-endian bytes of the word.
    pub fn to_be_bytes(&self) -> (bytes: [u8; 32])
        ensures
            bytes == self.bytes,
            bytes@ == be_bytes(self@, 32),
    {
        proof {
            lemma_be_bytes_of_value(self.bytes@);
        }
        self.bytes
    }

    /// The word that up to 32 big-endian bytes denote, zero-extended on the
    /// left.
    pub fn from_be_slice(s: &[u8]) -> (w: Word)
        requires
            s@.len() <= 32,
        ensures
            w@ == be_value(s@),
    {
        let n = s.len();
        let mut bytes = [0u8; 32];
        let mut i: usize = 0;
        while i < n
            invariant
                n == s@.len(),
                n <= 32,
                i <= n,
                forall|j: int| 0 <= j < 32 - n ==> bytes@[j] == 0,
                forall|j: int| 0 <= j < i ==> bytes@[32 - n + j] == s@[j],
            decreases n - i,
        {
            bytes[32 - n + i] = s[i];
            i += 1;
        }
        proof {
            lemma_be_value_leading_zeros(bytes@, 32 - n);
            assert(bytes@.subrange(32 - n, 32) =~= s@);
        }
        Word { bytes }
    }

    /// The word of value `x`.
    pub fn from_u64(x: u64) -> (w: Word)
        ensures
            w@ == x,
    {
        let mut bytes = [0u8; 32];
        let mut rest: u64 = x;
        let mut k: usize = 0;
        proof {
            assert(bytes@.subrange(32, 32) =~= Seq::<u8>::empty());
            assert(radix_pow(0) == 1);
        }
        while k < 8
            invariant
                k <= 8,
                forall|i: int| 0 <= i < 32 - k ==> bytes@[i] == 0,
                be_value(bytes@.subrange(32 - k, 32)) + rest * radix_pow(k as nat) == x,
            decreases 8 - k,
        {
            let ghost before = bytes@.subrange(32 - k, 32);
            let low: u8 = (rest % 256) as u8;
            bytes[31 - k] = low;
            proof {
                let after = bytes@.subrange(31 - k, 32);
                assert(after =~= seq![low] + before);
                lemma_be_value_concat(seq![low], before);
                lemma_be_value_push(Seq::<u8>::empty(), low);
                assert(seq![low] =~= Seq::<u8>::empty().push(low));
                assert(radix_pow(k as nat + 1) == 256 * radix_pow(k as nat));
                let p = radix_pow(k as nat) as int;
                let r = rest as int;
                assert(low * p + (r / 256) * (256 * p) == r * p) by (nonlinear_arith)
                    requires
                        low == r % 256,
                ;
            }
            rest = rest / 256;
            k += 1;
        }
        proof {
            lemma_radix_pow_values();
            let p = radix_pow(8) as int;
            let r = rest as int;
            assert(r == 0) by (nonlinear_arith)
                requires
                    r >= 0,
                    r * p <= x,
                    x < p,
            ;
            lemma_be_value_leading_zeros(bytes@, 24);
            assert(r * p == 0) by (nonlinear_arith)
                requires
                    r == 0,
            ;
            assert(be_value(bytes@.subrange(24, 32)) == x);
            assert(be_value(bytes@) == x);
        }
        Word { bytes }
    }

    /// The word of value `x`.
    pub fn from_u8(x: u8) -> (w: Word)
        ensures
            w@ == x,
    {
        let mut bytes = [0u8; 32];
        bytes[31] = x;
        proof {
            lemma_be_value_leading_zeros(bytes@, 31);
            assert(bytes@.subrange(31, 32) =~= Seq::<u8>::empty().push(x));
            lemma_be_value_push(Seq::<u8>::empty(), x);
        }
        Word { bytes }
    }

    /// One for `true`, zero for `false`.
    pub fn from_bool(b: bool) -> (w: Word)
        ensures
            w@ == if b { 1nat } else { 0nat },
    {
        if b {
            Word::from_u8(1)
        } else {
            Word::zero()
        }
    }

    /// The value as a `u64`, where it fits: the explicit narrowing.
    pub fn as_u64(&self) -> (r: Option<u64>)
        ensures
            r == if self@ < limb_modulus() {
                Some(self@ as u64)
            } else {
                None
            },
    {
        let mut i: usize = 0;
        while i < 24
            invariant
                i <= 24,
                forall|j: int| 0 <= j < i ==> self.bytes@[j] == 0,
            decreases 24 - i,
        {
            if self.bytes[i] != 0 {
                proof {
                    lemma_radix_pow_values();
                    lemma_be_value_leading_zeros(self.bytes@, 24);
                    assert(self.bytes@[i as int] != 0);
                }
                return None;
            }
            i += 1;
        }
        let mut acc: u64 = 0;
        let mut k: usize = 24;
        proof {
            assert(self.bytes@.subrange(24, 24) =~= Seq::<u8>::empty());
        }
        while k < 32
            invariant
                24 <= k <= 32,
                acc == be_value(self.bytes@.subrange(24, k as int)),
            decreases 32 - k,
        {
            proof {
                reveal_with_fuel(radix_pow, 9);
                lemma_be_value_bound(self.bytes@.subrange(24, k as int));
                lemma_radix_pow_increases((k - 24) as nat, 7);
                assert(self.bytes@.subrange(24, k + 1) =~= self.bytes@.subrange(24, k as int).push(
                    self.bytes@[k as int],
                ));
                lemma_be_value_push(self.bytes@.subrange(24, k as int), self.bytes@[k as int]);
            }
            acc = acc * 256 + self.bytes[k] as u64;
            k += 1;
        }
        proof {
            lemma_radix_pow_values();
            lemma_be_value_leading_zeros(self.bytes@, 24);
            lemma_be_value_bound(self.bytes@.subrange(24, 32));
        }
        Some(acc)
    }

    /// Whether the word is zero.
    pub fn is_zero(&self) -> (r: bool)
        ensures
            r == (self@ == 0),
    {
        let mut i: usize = 0;
        while i < 32
            invariant
                i <= 32,
                forall|j: int| 0 <= j < i ==> self.bytes@[j] == 0,
            decreases 32 - i,
        {
            if self.bytes[i] != 0 {
                proof {
                    lemma_be_value_zero(self.bytes@);
                    assert(self.bytes@[i as int] != 0);
                }
                return false;
            }
            i += 1;
        }
        proof {
            lemma_be_value_zero(self.bytes@);
        }
        true
    }

    /// Whether two words have the same value.
    pub fn eq(&self, other: &Word) -> (r: bool)
        ensures
            r == (self@ == other@),
    {
        let mut i: usize = 0;
        while i < 32
            invariant
                i <= 32,
                forall|j: int| 0 <= j < i ==> self.bytes@[j] == other.bytes@[j],
            decreases 32 - i,
        {
            if self.bytes[i] != other.bytes[i] {
                proof {
                    if self@ == other@ {
                        lemma_be_value_injective(self.bytes@, other.bytes@);
                    }
                }
                return false;
            }
            i += 1;
        }
        assert(self.bytes@ =~= other.bytes@);
        true
    }

    /// Unsigned less-than.
    pub fn lt(&self, other: &Word) -> (r: bool)
        ensures
            r == (self@ < other@),
    {
        let mut i: usize = 0;
        while i < 32
            invariant
                i <= 32,
                forall|j: int| 0 <= j < i ==> self.bytes@[j] == other.bytes@[j],
            decreases 32 - i,
        {
            if self.bytes[i] != other.bytes[i] {
                proof {
                    assert(self.bytes@.subrange(0, i as int) =~= other.bytes@.subrange(
                        0,
                        i as int,
                    ));
                    if self.bytes@[i as int] < other.bytes@[i as int] {
                        lemma_be_value_order(self.bytes@, other.bytes@, i as int);
                    } else {
                        lemma_be_value_order(other.bytes@, self.bytes@, i as int);
                    }
                }
                return self.bytes[i] < other.bytes[i];
            }
            i += 1;
        }
        assert(self.bytes@ =~= other.bytes@);
        false
    }

    /// Whether the word is negative when read as a two's-complement number.
    pub fn is_negative(&self) -> (r: bool)
        ensures
            r == (self@ >= sign_threshold()),
    {
        proof {
            lemma_be_value_sign(self.bytes@);
            lemma_radix_pow_values();
        }
        self.bytes[0] >= 128
    }

    /// The number of bytes that the value needs.
    pub fn byte_len(&self) -> (n: usize)
        ensures
            n == significant_bytes(self@),
            n <= 32,
    {
        let mut z: usize = 0;
        while z < 32 && self.bytes[z] == 0
            invariant
                z <= 32,
                forall|i: int| 0 <= i < z ==> self.bytes@[i] == 0,
            decreases 32 - z,
        {
            z += 1;
        }
        proof {
            lemma_significant_bytes(self.bytes@, z as int);
        }
        32 - z
    }

    /// Unsigned greater-than.
    pub fn gt(&self, other: &Word) -> (r: bool)
        ensures
            r == (self@ > other@),
    {
        other.lt(self)
    }
}

} // verus!
