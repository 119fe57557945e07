//! Big-endian byte strings read as natural numbers: the number that a
//! string denotes, the string that denotes a number, and how the two behave
//! under concatenation, comparison and complement.

use vstd::prelude::*;

verus! {

/// The number that a big-endian byte string denotes.
pub open spec fn be_value(s: Seq<u8>) -> nat
    decreases s.len(),
{
    if s.len() == 0 {
        0
    } else {
        be_value(s.drop_last()) * 256 + s.last() as nat
    }
}

/// 256 to the power `n`: the number of values that `n` bytes can hold.
pub open spec fn radix_pow(n: nat) -> nat
    decreases n,
{
    if n == 0 {
        1
    } else {
        256 * radix_pow((n - 1) as nat)
    }
}

/// The `len` big-endian bytes of `v` modulo 256^len.
pub open spec fn be_bytes(v: nat, len: nat) -> Seq<u8> {
    Seq::new(len, |i: int| ((v / radix_pow((len - 1 - i) as nat)) % 256) as u8)
}

/// Every power of 256 is positive.
pub proof fn lemma_radix_pow_positive(n: nat)
    ensures
        radix_pow(n) > 0,
    decreases n,
{
    if n > 0 {
        lemma_radix_pow_positive((n - 1) as nat);
    }
}

/// Exponents add where powers multiply.
pub proof fn lemma_radix_pow_adds(a: nat, b: nat)
    ensures
        radix_pow(a + b) == radix_pow(a) * radix_pow(b),
    decreases a,
{
    if a == 0 {
        assert(radix_pow(0) == 1);
        assert(radix_pow(a + b) == radix_pow(b));
    } else {
        lemma_radix_pow_adds((a - 1) as nat, b);
        let p = radix_pow((a - 1) as nat);
        let q = radix_pow(b);
        assert(radix_pow(a + b) == 256 * radix_pow((a + b - 1) as nat));
        assert(256 * (p * q) == (256 * p) * q) by (nonlinear_arith);
    }
}

/// Appending one byte multiplies the value by 256 and adds the byte.
pub proof fn lemma_be_value_push(s: Seq<u8>, b: u8)
    ensures
        be_value(s.push(b)) == be_value(s) * 256 + b as nat,
{
    assert(s.push(b).drop_last() =~= s);
}

/// `n` bytes denote a number below 256^n.
pub proof fn lemma_be_value_bound(s: Seq<u8>)
    ensures
        be_value(s) < radix_pow(s.len()),
    decreases s.len(),
{
    if s.len() > 0 {
        lemma_be_value_bound(s.drop_last());
    }
}

/// The value of a concatenation: the left part is shifted by the length of
/// the right part.
pub proof fn lemma_be_value_concat(a: Seq<u8>, b: Seq<u8>)
    ensures
        be_value(a + b) == be_value(a) * radix_pow(b.len()) + be_value(b),
    decreases b.len(),
{
    if b.len() == 0 {
        assert(a + b =~= a);
        assert(radix_pow(0) == 1);
        assert(be_value(a) * 1 == be_value(a));
    } else {
        let b0 = b.drop_last();
        lemma_be_value_concat(a, b0);
        assert((a + b).drop_last() =~= a + b0);
        assert((a + b).last() == b.last());
        let x = be_value(a);
        let p = radix_pow(b0.len());
        assert(radix_pow(b.len()) == 256 * p);
        assert(be_value(a + b) == (x * p + be_value(b0)) * 256 + b.last() as nat);
        assert((x * p) * 256 == x * (256 * p)) by (nonlinear_arith);
    }
}

/// A byte string denotes zero exactly when all its bytes are zero.
pub proof fn lemma_be_value_zero(s: Seq<u8>)
    ensures
        be_value(s) == 0 <==> (forall|i: int| 0 <= i < s.len() ==> s[i] == 0),
    decreases s.len(),
{
    if s.len() > 0 {
        let t = s.drop_last();
        lemma_be_value_zero(t);
        if be_value(s) == 0 {
            assert(be_value(t) == 0);
            assert forall|i: int| 0 <= i < s.len() implies s[i] == 0 by {
                if i < t.len() {
                    assert(t[i] == s[i]);
                }
            }
        }
        if forall|i: int| 0 <= i < s.len() ==> s[i] == 0 {
            assert forall|i: int| 0 <= i < t.len() implies t[i] == 0 by {
                assert(t[i] == s[i]);
            }
        }
    }
}

/// Each byte is the matching base-256 digit of the value.
pub proof fn lemma_be_value_digit(s: Seq<u8>, i: int)
    requires
        0 <= i < s.len(),
    ensures
        s[i] as nat == (be_value(s) / radix_pow((s.len() - 1 - i) as nat)) % 256,
    decreases s.len(),
{
    let t = s.drop_last();
    let v = be_value(s);
    if i == s.len() - 1 {
        assert(radix_pow(0) == 1);
        assert(v == be_value(t) * 256 + s.last() as nat);
        assert(v / 1 == v);
        assert(s[i] == s.last());
    } else {
        lemma_be_value_digit(t, i);
        let k = (s.len() - 1 - i) as nat;
        let p = radix_pow((k - 1) as nat);
        lemma_radix_pow_positive((k - 1) as nat);
        assert(radix_pow(k) == 256 * p);
        assert(t[i] == s[i]);
        let tv = be_value(t);
        let low = s.last() as nat;
        // v / (256 * p) == (v / 256) / p, and v / 256 == tv.
        assert(v / 256 == tv);
        assert(v / (256 * p) == (v / 256) / p) by (nonlinear_arith)
            requires
                p > 0,
        ;
        assert(v / radix_pow(k) == tv / p);
        assert(t[i] as nat == (tv / radix_pow((t.len() - 1 - i) as nat)) % 256);
    }
}

/// Reading the bytes of a string's value gives the string back.
pub proof fn lemma_be_bytes_of_value(s: Seq<u8>)
    ensures
        be_bytes(be_value(s), s.len()) == s,
{
    assert forall|i: int| 0 <= i < s.len() implies be_bytes(be_value(s), s.len())[i] == s[i] by {
        lemma_be_value_digit(s, i);
    }
    assert(be_bytes(be_value(s), s.len()) =~= s);
}

/// Two strings of one length with one value are the same string.
pub proof fn lemma_be_value_injective(a: Seq<u8>, b: Seq<u8>)
    requires
        a.len() == b.len(),
        be_value(a) == be_value(b),
    ensures
        a == b,
{
    lemma_be_bytes_of_value(a);
    lemma_be_bytes_of_value(b);
}

/// The value of the bytes of a number below 256^len is that number.
pub proof fn lemma_be_value_of_bytes(v: nat, len: nat)
    requires
        v < radix_pow(len),
    ensures
        be_value(be_bytes(v, len)) == v,
    decreases len,
{
    let s = be_bytes(v, len);
    if len > 0 {
        let t = s.drop_last();
        let w = v / 256;
        assert(radix_pow(len) == 256 * radix_pow((len - 1) as nat));
        assert(w < radix_pow((len - 1) as nat));
        lemma_be_value_of_bytes(w, (len - 1) as nat);
        assert forall|i: int| 0 <= i < len - 1 implies t[i] == be_bytes(w, (len - 1) as nat)[i] by {
            let k = (len - 1 - i) as nat;
            let p = radix_pow((k - 1) as nat);
            lemma_radix_pow_positive((k - 1) as nat);
            assert(radix_pow(k) == 256 * p);
            assert(v / (256 * p) == (v / 256) / p) by (nonlinear_arith)
                requires
                    p > 0,
            ;
        }
        assert(t =~= be_bytes(w, (len - 1) as nat));
        assert(radix_pow(0) == 1);
        assert(s[len - 1] == ((v / radix_pow((len - 1 - (len - 1)) as nat)) % 256) as u8);
        assert(v / 1 == v);
        assert(s.last() as nat == v % 256);
    }
}

/// Among strings of one length, the first differing byte decides the order.
pub proof fn lemma_be_value_order(a: Seq<u8>, b: Seq<u8>, i: int)
    requires
        a.len() == b.len(),
        0 <= i < a.len(),
        a.subrange(0, i) == b.subrange(0, i),
        a[i] < b[i],
    ensures
        be_value(a) < be_value(b),
{
    let n = a.len() as int;
    let head = a.subrange(0, i);
    let ra = a.subrange(i + 1, n);
    let rb = b.subrange(i + 1, n);
    assert(a =~= head.push(a[i]) + ra);
    assert(b =~= b.subrange(0, i).push(b[i]) + rb);
    lemma_be_value_concat(head.push(a[i]), ra);
    lemma_be_value_concat(head.push(b[i]), rb);
    lemma_be_value_push(head, a[i]);
    lemma_be_value_push(head, b[i]);
    lemma_be_value_bound(ra);
    lemma_be_value_bound(rb);
    let p = radix_pow(ra.len());
    let x = be_value(head.push(a[i]));
    let y = be_value(head.push(b[i]));
    assert(x + 1 <= y);
    assert(x * p + p <= y * p) by (nonlinear_arith)
        requires
            x + 1 <= y,
    ;
}

/// Complementing every byte complements the value.
pub proof fn lemma_be_value_complement(s: Seq<u8>, c: Seq<u8>)
    requires
        c.len() == s.len(),
        forall|i: int| 0 <= i < s.len() ==> c[i] as int == 255 - s[i],
    ensures
        be_value(c) + be_value(s) + 1 == radix_pow(s.len()),
    decreases s.len(),
{
    if s.len() > 0 {
        lemma_be_value_complement(s.drop_last(), c.drop_last());
    }
}

/// A larger exponent gives a larger power.
pub proof fn lemma_radix_pow_increases(a: nat, b: nat)
    requires
        a <= b,
    ensures
        radix_pow(a) <= radix_pow(b),
{
    lemma_radix_pow_adds(a, (b - a) as nat);
    lemma_radix_pow_positive(a);
    lemma_radix_pow_positive((b - a) as nat);
    let p = radix_pow(a);
    let q = radix_pow((b - a) as nat);
    assert(p * q >= p) by (nonlinear_arith)
        requires
            p > 0,
            q > 0,
    ;
}

/// The first `k` bytes are zero exactly when the value fits in the others,
/// and then the others alone denote it.
pub proof fn lemma_be_value_leading_zeros(s: Seq<u8>, k: int)
    requires
        0 <= k <= s.len(),
    ensures
        (forall|i: int| 0 <= i < k ==> s[i] == 0) <==> be_value(s) < radix_pow(
            (s.len() - k) as nat,
        ),
        (forall|i: int| 0 <= i < k ==> s[i] == 0) ==> be_value(s) == be_value(
            s.subrange(k, s.len() as int),
        ),
{
    let n = s.len() as int;
    let head = s.subrange(0, k);
    let rest = s.subrange(k, n);
    let v = be_value(s);
    assert(s =~= head + rest);
    lemma_be_value_concat(head, rest);
    lemma_be_value_zero(head);
    lemma_be_value_bound(rest);
    if forall|i: int| 0 <= i < k ==> s[i] == 0 {
        assert forall|i: int| 0 <= i < head.len() implies head[i] == 0 by {
            assert(head[i] == s[i]);
        }
        assert(be_value(head) * radix_pow(rest.len()) == 0);
    }
    if v < radix_pow((n - k) as nat) {
        assert forall|i: int| 0 <= i < k implies s[i] == 0 by {
            lemma_be_value_digit(s, i);
            let p = radix_pow((n - 1 - i) as nat);
            lemma_radix_pow_increases((n - k) as nat, (n - 1 - i) as nat);
            assert(v / p == 0) by (nonlinear_arith)
                requires
                    0 <= v < p,
            ;
        }
    }
}

/// The first byte of a string is at least 128 exactly when the value
/// reaches the upper half of the range.
pub proof fn lemma_be_value_sign(s: Seq<u8>)
    requires
        s.len() > 0,
    ensures
        s[0] >= 128 <==> be_value(s) >= 128 * radix_pow((s.len() - 1) as nat),
{
    let rest = s.subrange(1, s.len() as int);
    let first = Seq::<u8>::empty().push(s[0]);
    assert(s =~= first + rest);
    lemma_be_value_concat(first, rest);
    lemma_be_value_push(Seq::<u8>::empty(), s[0]);
    lemma_be_value_bound(rest);
    let p = radix_pow(rest.len()) as int;
    let b = s[0] as int;
    assert(b >= 128 ==> b * p >= 128 * p) by (nonlinear_arith)
        requires
            p > 0,
    ;
    assert(b <= 127 ==> b * p + p <= 128 * p) by (nonlinear_arith)
        requires
            p > 0,
    ;
}

/// The last `n` bytes of a string denote its value modulo 256^n.
pub proof fn lemma_be_value_suffix(s: Seq<u8>, n: int)
    requires
        0 <= n <= s.len(),
    ensures
        be_value(s.subrange(s.len() - n, s.len() as int)) == be_value(s) % radix_pow(n as nat),
{
    let k = s.len() - n;
    let head = s.subrange(0, k);
    let rest = s.subrange(k, s.len() as int);
    assert(s =~= head + rest);
    lemma_be_value_concat(head, rest);
    lemma_be_value_bound(rest);
    let p = radix_pow(n as nat) as int;
    let h = be_value(head) as int;
    let r = be_value(rest) as int;
    vstd::arithmetic::div_mod::lemma_fundamental_div_mod_converse(h * p + r, p, h, r);
}

/// The number of bytes that a value needs: none for zero, else one more
/// than its 256th part needs.
pub open spec fn significant_bytes(v: nat) -> nat
    decreases v,
{
    if v == 0 {
        0
    } else {
        1 + significant_bytes(v / 256)
    }
}

/// A string whose first non-zero byte stands at index `z` needs all bytes
/// from there on.
pub proof fn lemma_significant_bytes(s: Seq<u8>, z: int)
    requires
        0 <= z <= s.len(),
        forall|i: int| 0 <= i < z ==> s[i] == 0,
        z < s.len() ==> s[z] != 0,
    ensures
        significant_bytes(be_value(s)) == s.len() - z,
    decreases s.len(),
{
    lemma_be_value_zero(s);
    if z < s.len() {
        let t = s.drop_last();
        assert(be_value(s) / 256 == be_value(t));
        assert(s[z] != 0);
        assert(be_value(s) != 0);
        assert forall|i: int| 0 <= i < z && i < t.len() implies t[i] == 0 by {
            assert(t[i] == s[i]);
        }
        if z < t.len() {
            assert(t[z] == s[z]);
        }
        lemma_significant_bytes(t, z);
    }
}

} // verus!
