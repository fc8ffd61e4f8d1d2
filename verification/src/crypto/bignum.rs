//! Arbitrary-precision integers as plain bytes.
//!
//! A `BigNum` holds an integer in two's complement, big-endian. Its view is the
//! mathematical integer. The arithmetic itself is done by `num_bigint_dig`,
//! behind the functions at the end of this file, whose contracts are taken on
//! trust.

use num_bigint_dig::BigInt;
use num_bigint_dig::ModInverse;
use vstd::arithmetic::power::{lemma_pow_increases, lemma_pow_positive, pow};
use vstd::prelude::*;

verus! {

/// Value of `s` read as an unsigned big-endian number.
pub open spec fn unsigned_be(s: Seq<u8>) -> nat
    decreases s.len(),
{
    if s.len() == 0 {
        0
    } else {
        unsigned_be(s.drop_last()) * 256 + s.last() as nat
    }
}

/// Value of `s` read as a two's complement big-endian number; the empty
/// sequence stands for zero.
pub open spec fn signed_be(s: Seq<u8>) -> int {
    if s.len() > 0 && s[0] >= 0x80 {
        unsigned_be(s) - pow(256, s.len())
    } else {
        unsigned_be(s) as int
    }
}

/// Absolute value.
pub open spec fn magnitude(n: int) -> nat {
    if n < 0 {
        (-n) as nat
    } else {
        n as nat
    }
}

/// Number of binary digits of `n`, none for zero.
pub open spec fn bit_length(n: nat) -> nat
    decreases n,
{
    if n == 0 {
        0
    } else {
        1 + bit_length(n / 2)
    }
}

/// What `modpow` computes: for a base that is not negative the power reduced
/// into `[0, m)`; for a negative base the power of its magnitude, reduced,
/// negated and reduced again, whatever the exponent's parity.
pub open spec fn modpow_value(base: int, exp: nat, m: int) -> int {
    if base >= 0 {
        pow(base, exp) % m
    } else {
        (-(pow(-base, exp) % m)) % m
    }
}

/// Whether `s` is a shortest two's complement encoding: at least one byte, and
/// no leading byte that only repeats the sign.
pub open spec fn is_minimal_signed(s: Seq<u8>) -> bool {
    &&& s.len() >= 1
    &&& s.len() >= 2 ==> !(s[0] == 0x00 && s[1] < 0x80)
    &&& s.len() >= 2 ==> !(s[0] == 0xff && s[1] >= 0x80)
}

/// Whether `x` is an inverse of `a` modulo `m`.
pub open spec fn is_inverse(a: int, x: int, m: int) -> bool {
    (a * x) % m == 1
}

/// The modular inverse that `num_bigint_dig` finds for `a` modulo `m`, if any.
pub uninterp spec fn mod_inverse_of(a: int, m: int) -> Option<int>;

/// The shortest two's complement big-endian bytes of `n`.
pub open spec fn shortest_signed_be(n: int) -> Seq<u8> {
    choose|s: Seq<u8>| is_minimal_signed(s) && signed_be(s) == n
}

/// An integer of any size, held as two's complement big-endian bytes.
#[derive(Debug)]
pub struct BigNum {
    pub bytes: Vec<u8>,
}

impl View for BigNum {
    type V = int;

    open spec fn view(&self) -> int {
        signed_be(self.bytes@)
    }
}

/// Appending a byte multiplies by 256 and adds the byte.
pub proof fn lemma_unsigned_be_push(s: Seq<u8>, b: u8)
    ensures
        unsigned_be(s.push(b)) == unsigned_be(s) * 256 + b,
{
    assert(s.push(b).drop_last() =~= s);
}

/// `256^n` is positive, and the next power is 256 times as much.
pub proof fn lemma_pow256(n: nat)
    ensures
        pow(256, n) > 0,
        pow(256, n + 1) == 256 * pow(256, n),
        pow(256, 0) == 1,
{
    lemma_pow_positive(256, n);
    reveal_with_fuel(pow, 2);
}

/// An unsigned number of `n` bytes is below `256^n`.
pub proof fn lemma_unsigned_be_bound(s: Seq<u8>)
    ensures
        unsigned_be(s) < pow(256, s.len()),
    decreases s.len(),
{
    if s.len() == 0 {
        lemma_pow256(0);
    } else {
        lemma_unsigned_be_bound(s.drop_last());
        lemma_pow256((s.len() - 1) as nat);
    }
}

/// An unsigned number is its first byte, `len - 1` places up, plus the number
/// that the other bytes make.
pub proof fn lemma_unsigned_be_front(s: Seq<u8>)
    requires
        s.len() >= 1,
    ensures
        unsigned_be(s) == s[0] * pow(256, (s.len() - 1) as nat) + unsigned_be(
            s.subrange(1, s.len() as int),
        ),
    decreases s.len(),
{
    let len = s.len() as int;
    let tail = s.subrange(1, len);
    let a = s[0] as int;
    if len == 1 {
        lemma_pow256(0);
        assert(s.drop_last() =~= Seq::<u8>::empty());
        assert(tail =~= Seq::<u8>::empty());
        assert(unsigned_be(s.drop_last()) == 0);
        assert(unsigned_be(tail) == 0);
        assert(unsigned_be(s) == a);
        assert(a * pow(256, 0) == a) by (nonlinear_arith)
            requires
                pow(256, 0) == 1,
        ;
    } else {
        let d = s.drop_last();
        lemma_unsigned_be_front(d);
        assert(d.subrange(1, len - 1) =~= tail.drop_last());
        assert(tail.last() == s.last());
        assert(d[0] == s[0]);
        lemma_pow256((len - 2) as nat);
        let q = pow(256, (len - 2) as nat);
        let t = unsigned_be(tail.drop_last()) as int;
        assert(pow(256, (len - 1) as nat) == 256 * q);
        assert(unsigned_be(d) == a * q + t);
        assert(unsigned_be(s) == unsigned_be(d) * 256 + s.last());
        assert(unsigned_be(tail) == t * 256 + s.last());
        assert((a * q + t) * 256 == a * (256 * q) + t * 256) by (nonlinear_arith);
    }
}

/// A two's complement number of `n >= 1` bytes lies between `-128 * 256^(n-1)`
/// and `128 * 256^(n-1) - 1`, and is negative exactly where its first byte is
/// 128 or more.
pub proof fn lemma_signed_be_range(s: Seq<u8>)
    requires
        s.len() >= 1,
    ensures
        -128 * pow(256, (s.len() - 1) as nat) <= signed_be(s) < 128 * pow(
            256,
            (s.len() - 1) as nat,
        ),
        signed_be(s) < 0 <==> s[0] >= 0x80,
{
    let len = s.len() as int;
    let tail = s.subrange(1, len);
    lemma_unsigned_be_front(s);
    lemma_unsigned_be_bound(tail);
    lemma_pow256((len - 1) as nat);
    let q = pow(256, (len - 1) as nat);
    let a = s[0] as int;
    let t = unsigned_be(tail) as int;
    assert(0 <= t < q);
    assert(unsigned_be(s) == a * q + t);
    assert(pow(256, s.len()) == 256 * q);
    if a >= 0x80 {
        assert(a * q >= 128 * q) by (nonlinear_arith)
            requires
                a >= 128,
                q > 0,
        ;
        assert(a * q <= 255 * q) by (nonlinear_arith)
            requires
                a <= 255,
                q > 0,
        ;
    } else {
        assert(a * q <= 127 * q) by (nonlinear_arith)
            requires
                a <= 127,
                q > 0,
        ;
        assert(a * q >= 0) by (nonlinear_arith)
            requires
                a >= 0,
                q > 0,
        ;
    }
}

/// A shortest encoding of two bytes or more stands for a number that one byte
/// less could not hold.
pub proof fn lemma_minimal_needs_its_length(s: Seq<u8>)
    requires
        is_minimal_signed(s),
        s.len() >= 2,
    ensures
        signed_be(s) >= 128 * pow(256, (s.len() - 2) as nat) || signed_be(s) < -128 * pow(
            256,
            (s.len() - 2) as nat,
        ),
{
    let len = s.len() as int;
    let tail = s.subrange(1, len);
    let tail2 = tail.subrange(1, len - 1);
    lemma_unsigned_be_front(s);
    lemma_unsigned_be_front(tail);
    lemma_unsigned_be_bound(tail2);
    lemma_pow256((len - 2) as nat);
    lemma_pow256((len - 1) as nat);
    let q = pow(256, (len - 2) as nat);
    let a = s[0] as int;
    let b = s[1] as int;
    let t = unsigned_be(tail2) as int;
    assert(tail[0] == s[1]);
    assert(pow(256, (len - 1) as nat) == 256 * q);
    assert(pow(256, s.len()) == 256 * (256 * q));
    assert(unsigned_be(tail) == b * q + t);
    assert(unsigned_be(s) == a * (256 * q) + (b * q + t));
    assert(0 <= t < q);
    assert(0 <= b * q <= 255 * q) by (nonlinear_arith)
        requires
            0 <= b <= 255,
            q > 0,
    ;
    if a < 0x80 {
        if a >= 1 {
            assert(a * (256 * q) >= 256 * q) by (nonlinear_arith)
                requires
                    a >= 1,
                    q > 0,
            ;
        } else {
            assert(a * (256 * q) == 0) by (nonlinear_arith)
                requires
                    a == 0,
            ;
            assert(b * q >= 128 * q) by (nonlinear_arith)
                requires
                    b >= 128,
                    q > 0,
            ;
        }
    } else {
        if a <= 0xfe {
            assert(a * (256 * q) <= 254 * (256 * q)) by (nonlinear_arith)
                requires
                    a <= 254,
                    q > 0,
            ;
        } else {
            assert(a * (256 * q) == 255 * (256 * q)) by (nonlinear_arith)
                requires
                    a == 255,
            ;
            assert(b * q <= 127 * q) by (nonlinear_arith)
                requires
                    b <= 127,
                    q > 0,
            ;
        }
    }
}

/// Unsigned numbers of the same length that are equal have the same bytes.
pub proof fn lemma_unsigned_be_injective(a: Seq<u8>, b: Seq<u8>)
    requires
        a.len() == b.len(),
        unsigned_be(a) == unsigned_be(b),
    ensures
        a == b,
    decreases a.len(),
{
    if a.len() == 0 {
        assert(a =~= b);
    } else {
        lemma_unsigned_be_injective(a.drop_last(), b.drop_last());
        assert(a =~= a.drop_last().push(a.last()));
        assert(b =~= b.drop_last().push(b.last()));
    }
}

/// A number has one shortest two's complement encoding only.
pub proof fn lemma_minimal_signed_unique(a: Seq<u8>, b: Seq<u8>)
    requires
        is_minimal_signed(a),
        is_minimal_signed(b),
        signed_be(a) == signed_be(b),
    ensures
        a == b,
{
    lemma_signed_be_range(a);
    lemma_signed_be_range(b);
    if a.len() < b.len() {
        lemma_minimal_needs_its_length(b);
        lemma_pow_increases(256, (a.len() - 1) as nat, (b.len() - 2) as nat);
    } else if b.len() < a.len() {
        lemma_minimal_needs_its_length(a);
        lemma_pow_increases(256, (b.len() - 1) as nat, (a.len() - 2) as nat);
    } else {
        lemma_unsigned_be_injective(a, b);
    }
}

/// The shortest encoding of a number is the bytes that encode it and are a
/// shortest encoding.
pub proof fn lemma_shortest_signed_be(n: int, s: Seq<u8>)
    requires
        is_minimal_signed(s),
        signed_be(s) == n,
    ensures
        shortest_signed_be(n) == s,
{
    let chosen = shortest_signed_be(n);
    assert(is_minimal_signed(chosen) && signed_be(chosen) == n);
    lemma_minimal_signed_unique(chosen, s);
}

impl BigNum {
    /// The integer that `bytes` encode.
    pub fn from_signed_bytes_be(bytes: Vec<u8>) -> (r: BigNum)
        ensures
            r.bytes == bytes,
            r@ == signed_be(bytes@),
    {
        BigNum { bytes }
    }

    /// Zero.
    pub fn zero() -> (r: BigNum)
        ensures
            r@ == 0,
    {
        BigNum { bytes: Vec::new() }
    }

    /// A small number that is not negative.
    pub fn from_small(v: u8) -> (r: BigNum)
        requires
            v < 0x80,
        ensures
            r@ == v,
    {
        let mut bytes: Vec<u8> = Vec::new();
        bytes.push(v);
        proof {
            lemma_unsigned_be_push(Seq::<u8>::empty(), v);
            assert(bytes@ =~= Seq::<u8>::empty().push(v));
        }
        BigNum { bytes }
    }

    /// A copy with the same bytes.
    pub fn duplicate(&self) -> (r: BigNum)
        ensures
            r.bytes@ == self.bytes@,
            r@ == self@,
    {
        BigNum { bytes: self.bytes.clone() }
    }
}

/// Sum, by `BigInt`'s `+`.
///
/// Trusted: the bytes are read by `from_signed_bytes_be` and written by
/// `to_signed_bytes_be`, which are inverse to each other on values, and `+` is
/// the sum of integers.
#[verifier::external_body]
pub(crate) fn big_add(a: &BigNum, b: &BigNum) -> (r: BigNum)
    ensures
        r@ == a@ + b@,
{
    let x = BigInt::from_signed_bytes_be(&a.bytes);
    let y = BigInt::from_signed_bytes_be(&b.bytes);
    BigNum { bytes: (x + y).to_signed_bytes_be() }
}

/// Difference, by `BigInt`'s `-`.
///
/// Trusted: `-` is the difference of integers.
#[verifier::external_body]
pub(crate) fn big_sub(a: &BigNum, b: &BigNum) -> (r: BigNum)
    ensures
        r@ == a@ - b@,
{
    let x = BigInt::from_signed_bytes_be(&a.bytes);
    let y = BigInt::from_signed_bytes_be(&b.bytes);
    BigNum { bytes: (x - y).to_signed_bytes_be() }
}

/// Product, by `BigInt`'s `*`.
///
/// Trusted: `*` is the product of integers.
#[verifier::external_body]
pub(crate) fn big_mul(a: &BigNum, b: &BigNum) -> (r: BigNum)
    ensures
        r@ == a@ * b@,
{
    let x = BigInt::from_signed_bytes_be(&a.bytes);
    let y = BigInt::from_signed_bytes_be(&b.bytes);
    BigNum { bytes: (x * y).to_signed_bytes_be() }
}

/// Negation, by `BigInt`'s unary `-`.
///
/// Trusted: unary `-` flips the sign.
#[verifier::external_body]
pub(crate) fn big_neg(a: &BigNum) -> (r: BigNum)
    ensures
        r@ == -a@,
{
    let x = BigInt::from_signed_bytes_be(&a.bytes);
    BigNum { bytes: (-x).to_signed_bytes_be() }
}

/// Modular power, by `BigInt::modpow`.
///
/// Trusted: `modpow` raises the base's magnitude to the exponent modulo the
/// modulus and, where the base is negative and that is not zero, subtracts it
/// from the modulus; it panics on a negative exponent and on a zero modulus,
/// which `requires` leaves out together with the moduli that are not above
/// one.
#[verifier::external_body]
pub(crate) fn big_modpow(base: &BigNum, exp: &BigNum, modulus: &BigNum) -> (r: BigNum)
    requires
        exp@ >= 0,
        modulus@ > 1,
    ensures
        r@ == modpow_value(base@, exp@ as nat, modulus@),
{
    let b = BigInt::from_signed_bytes_be(&base.bytes);
    let e = BigInt::from_signed_bytes_be(&exp.bytes);
    let m = BigInt::from_signed_bytes_be(&modulus.bytes);
    BigNum { bytes: b.modpow(&e, &m).to_signed_bytes_be() }
}

/// Modular inverse, by `ModInverse::mod_inverse`.
///
/// Trusted: the result is a function of the two values; an inverse that is
/// returned multiplies with `a` to one modulo `m`; none is returned only where
/// no integer does so. A modulus that is not positive makes `mod_inverse`
/// panic, and `requires` leaves out those and one.
#[verifier::external_body]
pub(crate) fn big_mod_inverse(a: &BigNum, m: &BigNum) -> (r: Option<BigNum>)
    requires
        m@ > 1,
    ensures
        r is Some <==> mod_inverse_of(a@, m@) is Some,
        r matches Some(x) ==> mod_inverse_of(a@, m@) == Some(x@) && is_inverse(a@, x@, m@),
        r is None ==> forall|x: int| !#[trigger] is_inverse(a@, x, m@),
{
    let x = BigInt::from_signed_bytes_be(&a.bytes);
    let y = BigInt::from_signed_bytes_be(&m.bytes);
    match x.mod_inverse(&y) {
        Some(inv) => Some(BigNum { bytes: inv.to_signed_bytes_be() }),
        None => None,
    }
}

/// Equality of values, by `BigInt`'s `==`.
///
/// Trusted: `==` holds of two `BigInt`s exactly when they are the same integer.
#[verifier::external_body]
pub(crate) fn big_eq(a: &BigNum, b: &BigNum) -> (r: bool)
    ensures
        r == (a@ == b@),
{
    BigInt::from_signed_bytes_be(&a.bytes) == BigInt::from_signed_bytes_be(&b.bytes)
}

/// Number of bits of the magnitude, by `BigInt::bits`.
///
/// Trusted: `bits` is the fewest bits that express the magnitude, none for
/// zero.
#[verifier::external_body]
pub(crate) fn big_bits(a: &BigNum) -> (r: usize)
    ensures
        r == bit_length(magnitude(a@)),
{
    BigInt::from_signed_bytes_be(&a.bytes).bits()
}

/// Shortest two's complement bytes, by `BigInt::to_signed_bytes_be`.
///
/// Trusted: the bytes encode the value and are a shortest such encoding, one
/// zero byte for zero.
#[verifier::external_body]
pub(crate) fn big_to_signed_bytes_be(a: &BigNum) -> (r: Vec<u8>)
    ensures
        signed_be(r@) == a@,
        is_minimal_signed(r@),
{
    BigInt::from_signed_bytes_be(&a.bytes).to_signed_bytes_be()
}

} // verus!
