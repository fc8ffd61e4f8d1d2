//! Point arithmetic on SIEC255, the short Weierstrass curve `y^2 = x^3 + 19`
//! over a 255-bit prime field.
//!
//! Points are affine pairs of integers; `(0, 0)` stands for the neutral point.
//! The formulas are stated over mathematical integers, of either sign and of
//! any size: whatever is squared or cubed is first reduced into the field. A
//! division is a multiplication by a modular inverse, and where none exists
//! the operation has no result.

use crate::crypto::bignum::{
    big_add, big_bits, big_eq, big_mod_inverse, big_modpow, big_mul, big_sub, bit_length,
    magnitude, mod_inverse_of, modpow_value, unsigned_be, BigNum,
};
use vstd::arithmetic::div_mod::{
    lemma_add_mod_noop, lemma_mod_twice, lemma_mul_mod_noop, lemma_sub_mod_noop,
};
use vstd::arithmetic::power::{lemma_pow1, pow};
use vstd::prelude::*;

verus! {

/// Order of the underlying field.
pub open spec fn siec255_p() -> int {
    28948022309329048855892746252183396360603931420023084536990047309120118726721int
}

/// Order of the base point.
pub open spec fn siec255_n() -> int {
    28948022309329048855892746252183396360263649053102146073526672701688283398081int
}

/// An affine point, or nothing where the arithmetic was not defined.
pub type SpecPoint = Option<(int, int)>;

/// Twice the point `(x1, y1)`: the tangent's slope is `3 x1^2 / (2 y1)`.
#[verifier::opaque]
pub open spec fn ec_double(p: int, x1: int, y1: int) -> SpecPoint {
    if y1 == 0 {
        Some((0int, 0int))
    } else {
        match mod_inverse_of(2 * y1, p) {
            None => None,
            Some(z) => {
                let lambda = ((x1 * x1) % p) * 3 * z;
                let x3 = ((lambda * lambda) % p - (x1 + x1)) % p;
                let y3 = ((lambda * (x1 - x3)) % p - y1) % p;
                Some((x3, y3))
            },
        }
    }
}

/// Sum of `(x1, y1)` and `(x2, y2)`: the neutral point adds nothing, equal
/// points are doubled, points above each other cancel, and otherwise the
/// chord's slope is `(y2 - y1) / (x2 - x1)`.
#[verifier::opaque]
pub open spec fn ec_add(p: int, x1: int, y1: int, x2: int, y2: int) -> SpecPoint {
    if x1 == 0 && y1 == 0 {
        Some((x2, y2))
    } else if x2 == 0 && y2 == 0 {
        Some((x1, y1))
    } else if x1 == x2 && y1 == y2 {
        ec_double(p, x1, y1)
    } else if x2 - x1 == 0 {
        Some((0int, 0int))
    } else {
        match mod_inverse_of(x2 - x1, p) {
            None => None,
            Some(z) => {
                let lambda = ((y2 - y1) * z) % p;
                let x3 = ((lambda * lambda) % p - (x1 + x2)) % p;
                let y3 = ((lambda * (x1 - x3)) % p - y1) % p;
                Some((x3, y3))
            },
        }
    }
}

/// One step of double-and-add: the accumulator is doubled, and the point is
/// added to it where the scalar's bit is set.
pub open spec fn ec_mult_bit(p: int, x1: int, y1: int, acc: SpecPoint, bit: bool) -> SpecPoint {
    match acc {
        None => None,
        Some(a) => match ec_double(p, a.0, a.1) {
            None => None,
            Some(d) => if bit {
                ec_add(p, x1, y1, d.0, d.1)
            } else {
                Some(d)
            },
        },
    }
}

/// The byte that is left of `b` once its highest bit was consumed.
pub open spec fn shift_out(b: u8) -> u8 {
    ((b % 128) * 2) as u8
}

/// The highest `n` bits of `b` fed to double-and-add, highest first.
pub open spec fn ec_mult_bits(p: int, x1: int, y1: int, acc: SpecPoint, b: u8, n: nat) -> SpecPoint
    decreases n,
{
    if n == 0 {
        acc
    } else {
        ec_mult_bits(p, x1, y1, ec_mult_bit(p, x1, y1, acc, b >= 0x80), shift_out(b), (n - 1) as nat)
    }
}

/// The multiple of `(x1, y1)` by the scalar whose big-endian bytes are `k`,
/// by double-and-add from the highest bit down, starting at the neutral point.
pub open spec fn ec_scalar_mult(p: int, x1: int, y1: int, k: Seq<u8>) -> SpecPoint
    decreases k.len(),
{
    if k.len() == 0 {
        Some((0int, 0int))
    } else {
        ec_mult_bits(p, x1, y1, ec_scalar_mult(p, x1, y1, k.drop_last()), k.last(), 8)
    }
}

/// Whether `(x, y)` meets the curve's equation, `y^2 = x^3 + 19` modulo `p`.
pub open spec fn ec_on_curve(p: int, x: int, y: int) -> bool {
    (y * y) % p == (x * x * x + 19) % p
}

/// Whether the computed point, if any, is the one that the formula gives.
pub open spec fn point_is(r: Option<(BigNum, BigNum)>, s: SpecPoint) -> bool {
    match (r, s) {
        (Some(pt), Some(sp)) => pt.0@ == sp.0 && pt.1@ == sp.1,
        (None, None) => true,
        _ => false,
    }
}

/// A power with exponent one is a plain reduction, for either sign.
pub proof fn lemma_modpow_one(v: int, m: int)
    requires
        m > 0,
    ensures
        modpow_value(v, 1, m) == v % m,
{
    if v >= 0 {
        lemma_pow1(v);
    } else {
        lemma_pow1(-v);
        lemma_sub_mod_noop(0, -v, m);
    }
}

/// Only zero has no bits.
pub proof fn lemma_no_bits_is_zero(n: int)
    ensures
        bit_length(magnitude(n)) == 0 <==> n == 0,
{
}

/// The double of a point that is not at height zero lies in the field, if it
/// is defined.
pub proof fn lemma_double_reduced(p: int, x1: int, y1: int)
    requires
        p > 1,
        y1 != 0,
    ensures
        ec_double(p, x1, y1) matches Some(r) ==> 0 <= r.0 < p && 0 <= r.1 < p,
{
    reveal(ec_double);
}

/// The square of a number is, modulo `m`, the square of its remainder.
pub proof fn lemma_square_of_remainder(v: int, m: int)
    requires
        m > 1,
    ensures
        modpow_value(v % m, 2, m) == (v * v) % m,
{
    let a = v % m;
    reveal_with_fuel(pow, 3);
    assert(pow(a, 2) == a * a) by {
        assert(pow(a, 2) == a * (a * 1));
    }
    lemma_mul_mod_noop(v, v, m);
}

/// The cube of a number is, modulo `m`, the cube of its remainder.
pub proof fn lemma_cube_of_remainder(v: int, m: int)
    requires
        m > 1,
    ensures
        modpow_value(v % m, 3, m) == (v * v * v) % m,
{
    let a = v % m;
    reveal_with_fuel(pow, 4);
    assert(pow(a, 3) == a * a * a) by {
        assert(pow(a, 3) == a * (a * (a * 1)));
        assert(a * (a * a) == a * a * a) by (nonlinear_arith);
    }
    lemma_mul_mod_noop(a * a, a, m);
    lemma_mul_mod_noop(v, v, m);
    lemma_mod_twice(v, m);
    lemma_mul_mod_noop(v * v, v, m);
}

/// A curve in short Weierstrass form with `a = 0` over the integers modulo
/// `modulus()`.
pub trait EllipticCurve {
    /// Order of the underlying field.
    spec fn modulus(&self) -> int;

    /// The base point.
    spec fn base_point(&self) -> (int, int);

    /// Whether the parameters are those of the curve.
    spec fn wf(&self) -> bool;

    /// Sum of two points.
    fn add(&self, x1: &BigNum, y1: &BigNum, x2: &BigNum, y2: &BigNum) -> (r: Option<
        (BigNum, BigNum),
    >)
        requires
            self.wf(),
        ensures
            point_is(r, ec_add(self.modulus(), x1@, y1@, x2@, y2@)),
    ;

    /// Multiple of the base point.
    fn scalar_base_mult(&self, k: &[u8]) -> (r: Option<(BigNum, BigNum)>)
        requires
            self.wf(),
        ensures
            point_is(
                r,
                ec_scalar_mult(self.modulus(), self.base_point().0, self.base_point().1, k@),
            ),
    ;

    /// Multiple of the point `(bx, by)`.
    fn scalar_mult(&self, bx: &BigNum, by: &BigNum, k: &[u8]) -> (r: Option<(BigNum, BigNum)>)
        requires
            self.wf(),
        ensures
            point_is(r, ec_scalar_mult(self.modulus(), bx@, by@, k@)),
    ;

    /// Whether `(x, y)` lies on the curve.
    fn is_on_curve(&self, x: &BigNum, y: &BigNum) -> (r: bool)
        requires
            self.wf(),
        ensures
            r == ec_on_curve(self.modulus(), x@, y@),
    ;
}

/// The parameters of SIEC255.
#[derive(Debug)]
pub struct SIEC255Params {
    /// Order of the underlying field.
    pub p: BigNum,
    /// Order of the base point.
    pub n: BigNum,
    /// Coefficient of `x` in the curve equation.
    pub a: BigNum,
    /// Constant of the curve equation.
    pub b: BigNum,
    /// The base point.
    pub gx: BigNum,
    pub gy: BigNum,
    /// Size of the underlying field in bits.
    pub bit_size: usize,
    /// Canonical name of the curve.
    pub name: String,
}

/// The field's order as a number.
#[verifier::rlimit(40)]
fn field_order() -> (r: BigNum)
    ensures
        r@ == siec255_p(),
{
    let bytes: Vec<u8> = vec![
        0x40, 0x00, 0x00, 0x00, 0x00, 0x00, 0x00, 0x00, 0x00, 0x00, 0x00, 0x00, 0x02, 0x00, 0x10, 0x40,
        0x80, 0x00, 0x00, 0x00, 0x00, 0x00, 0x00, 0x00, 0x00, 0x04, 0x00, 0x41, 0x03, 0x08, 0x20, 0x41,
    ];
    proof {
        reveal_with_fuel(unsigned_be, 33);
        assert(unsigned_be(bytes@) == siec255_p());
    }
    BigNum::from_signed_bytes_be(bytes)
}

/// The base point's order as a number.
#[verifier::rlimit(40)]
fn group_order() -> (r: BigNum)
    ensures
        r@ == siec255_n(),
{
    let bytes: Vec<u8> = vec![
        0x40, 0x00, 0x00, 0x00, 0x00, 0x00, 0x00, 0x00, 0x00, 0x00, 0x00, 0x00, 0x02, 0x00, 0x10, 0x3f,
        0x80, 0x00, 0x00, 0x00, 0x00, 0x00, 0x00, 0x00, 0x00, 0x04, 0x00, 0x40, 0xff, 0x07, 0xff, 0xc1,
    ];
    proof {
        reveal_with_fuel(unsigned_be, 33);
        assert(unsigned_be(bytes@) == siec255_n());
    }
    BigNum::from_signed_bytes_be(bytes)
}

impl Default for SIEC255Params {
    fn default() -> (r: Self)
        ensures
            r.wf(),
    {
        SIEC255Params {
            name: "SIEC255".to_owned(),
            gx: BigNum::from_small(5),
            gy: BigNum::from_small(12),
            a: BigNum::from_small(0),
            b: BigNum::from_small(19),
            p: field_order(),
            n: group_order(),
            bit_size: 255,
        }
    }
}

impl SIEC255Params {
    /// The remainder of `v` in the field.
    fn reduce(&self, v: &BigNum) -> (r: BigNum)
        requires
            self.wf(),
        ensures
            r@ == v@ % self.p@,
    {
        let one = BigNum::from_small(1);
        proof {
            lemma_modpow_one(v@, self.p@);
        }
        big_modpow(v, &one, &self.p)
    }

    /// The square of `v` in the field.
    fn square(&self, v: &BigNum) -> (r: BigNum)
        requires
            self.wf(),
        ensures
            r@ == (v@ * v@) % self.p@,
    {
        let two = BigNum::from_small(2);
        proof {
            lemma_square_of_remainder(v@, self.p@);
        }
        big_modpow(&self.reduce(v), &two, &self.p)
    }

    /// The cube of `v` in the field.
    fn cube(&self, v: &BigNum) -> (r: BigNum)
        requires
            self.wf(),
        ensures
            r@ == (v@ * v@ * v@) % self.p@,
    {
        let three = BigNum::from_small(3);
        proof {
            lemma_cube_of_remainder(v@, self.p@);
        }
        big_modpow(&self.reduce(v), &three, &self.p)
    }

    /// Twice the point `(x1, y1)`.
    pub fn double(&self, x1: &BigNum, y1: &BigNum) -> (r: Option<(BigNum, BigNum)>)
        requires
            self.wf(),
        ensures
            point_is(r, ec_double(self.modulus(), x1@, y1@)),
    {
        let one = BigNum::from_small(1);
        let two = BigNum::from_small(2);
        let three = BigNum::from_small(3);
        let x_squared = self.square(x1);
        let numerator = big_mul(&x_squared, &three);
        proof {
            reveal(ec_double);
            lemma_no_bits_is_zero(y1@);
        }
        if big_bits(y1) == 0 {
            return Some((BigNum::zero(), BigNum::zero()));
        }
        // lambda = (3 x1^2) / (2 y1)
        let denominator = big_mul(&two, y1);
        let inverse = match big_mod_inverse(&denominator, &self.p) {
            Some(z) => z,
            None => { return None; },
        };
        let lambda = big_mul(&numerator, &inverse);
        // x3 = lambda^2 - 2 x1
        let lambda_squared = self.square(&lambda);
        let twice_x1 = big_add(x1, x1);
        let x3 = big_modpow(&big_sub(&lambda_squared, &twice_x1), &one, &self.p);
        // y3 = lambda (x1 - x3) - y1
        let product = big_modpow(&big_mul(&lambda, &big_sub(x1, &x3)), &one, &self.p);
        let y3 = big_modpow(&big_sub(&product, y1), &one, &self.p);
        proof {
            let p = self.p@;
            reveal(ec_double);
            lemma_modpow_one(lambda_squared@ - twice_x1@, p);
            lemma_modpow_one(lambda@ * (x1@ - x3@), p);
            lemma_modpow_one(product@ - y1@, p);
        }
        Some((x3, y3))
    }
}

impl SIEC255Params {
    /// One step of double-and-add on the accumulator `(x, y)`.
    fn mult_bit(&self, bx: &BigNum, by: &BigNum, x: &BigNum, y: &BigNum, bit: bool) -> (r: Option<
        (BigNum, BigNum),
    >)
        requires
            self.wf(),
        ensures
            point_is(r, ec_mult_bit(self.p@, bx@, by@, Some((x@, y@)), bit)),
    {
        match self.double(x, y) {
            Some(d) => if bit {
                self.add(bx, by, &d.0, &d.1)
            } else {
                Some(d)
            },
            None => None,
        }
    }

    /// The eight bits of `b` fed to double-and-add, highest first.
    fn mult_byte(&self, bx: &BigNum, by: &BigNum, x0: BigNum, y0: BigNum, b: u8) -> (r: Option<
        (BigNum, BigNum),
    >)
        requires
            self.wf(),
        ensures
            point_is(r, ec_mult_bits(self.p@, bx@, by@, Some((x0@, y0@)), b, 8)),
    {
        let ghost goal = ec_mult_bits(self.p@, bx@, by@, Some((x0@, y0@)), b, 8);
        let mut x = x0;
        let mut y = y0;
        let mut cur_b: u8 = b;
        let mut j: usize = 0;
        while j < 8
            invariant
                self.wf(),
                j <= 8,
                goal == ec_mult_bits(self.p@, bx@, by@, Some((x0@, y0@)), b, 8),
                ec_mult_bits(self.p@, bx@, by@, Some((x@, y@)), cur_b, (8 - j) as nat) == goal,
            decreases 8 - j,
        {
            assert(cur_b & 0x80 == 0x80 <==> cur_b >= 0x80) by (bit_vector);
            assert(cur_b << 1 == ((cur_b % 128) * 2) as u8) by (bit_vector);
            match self.mult_bit(bx, by, &x, &y, cur_b & 0x80 == 0x80) {
                Some(next) => {
                    x = next.0;
                    y = next.1;
                },
                None => {
                    proof {
                        let step = ec_mult_bit(self.p@, bx@, by@, Some((x@, y@)), cur_b >= 0x80);
                        assert(step is None);
                        assert(goal == ec_mult_bits(
                            self.p@,
                            bx@,
                            by@,
                            step,
                            shift_out(cur_b),
                            (7 - j) as nat,
                        ));
                        lemma_mult_bits_none(self.p@, bx@, by@, shift_out(cur_b), (7 - j) as nat);
                    }
                    return None;
                },
            }
            cur_b = cur_b << 1;
            j = j + 1;
        }
        Some((x, y))
    }
}

impl EllipticCurve for SIEC255Params {
    open spec fn modulus(&self) -> int {
        self.p@
    }

    open spec fn base_point(&self) -> (int, int) {
        (self.gx@, self.gy@)
    }

    open spec fn wf(&self) -> bool {
        &&& self.p@ == siec255_p()
        &&& self.n@ == siec255_n()
        &&& self.a@ == 0
        &&& self.b@ == 19
        &&& self.gx@ == 5
        &&& self.gy@ == 12
        &&& self.bit_size == 255
    }

    fn add(&self, x1: &BigNum, y1: &BigNum, x2: &BigNum, y2: &BigNum) -> (r: Option<
        (BigNum, BigNum),
    >) {
        proof {
            reveal(ec_add);
            lemma_no_bits_is_zero(x1@);
            lemma_no_bits_is_zero(y1@);
            lemma_no_bits_is_zero(x2@);
            lemma_no_bits_is_zero(y2@);
        }
        if big_bits(x1) == 0 && big_bits(y1) == 0 {
            Some((x2.duplicate(), y2.duplicate()))
        } else if big_bits(x2) == 0 && big_bits(y2) == 0 {
            Some((x1.duplicate(), y1.duplicate()))
        } else if big_eq(x1, x2) && big_eq(y1, y2) {
            self.double(x1, y1)
        } else {
            let one = BigNum::from_small(1);
            // lambda = (y2 - y1) / (x2 - x1)
            let z = big_sub(x2, x1);
            let rise = big_sub(y2, y1);
            proof {
                lemma_no_bits_is_zero(z@);
            }
            if big_bits(&z) == 0 {
                return Some((BigNum::zero(), BigNum::zero()));
            }
            let inverse = match big_mod_inverse(&z, &self.p) {
                Some(i) => i,
                None => { return None; },
            };
            let lambda = big_modpow(&big_mul(&rise, &inverse), &one, &self.p);
            // x3 = lambda^2 - x1 - x2
            let lambda_squared = self.square(&lambda);
            let x_sum = big_add(x1, x2);
            let x3 = big_modpow(&big_sub(&lambda_squared, &x_sum), &one, &self.p);
            // y3 = lambda (x1 - x3) - y1
            let product = big_modpow(&big_mul(&lambda, &big_sub(x1, &x3)), &one, &self.p);
            let y3 = big_modpow(&big_sub(&product, y1), &one, &self.p);
            proof {
                let p = self.p@;
                lemma_modpow_one(rise@ * inverse@, p);
                lemma_modpow_one(lambda_squared@ - x_sum@, p);
                lemma_modpow_one(lambda@ * (x1@ - x3@), p);
                lemma_modpow_one(product@ - y1@, p);
            }
            Some((x3, y3))
        }
    }

    fn scalar_base_mult(&self, k: &[u8]) -> (r: Option<(BigNum, BigNum)>) {
        self.scalar_mult(&self.gx, &self.gy, k)
    }

    fn scalar_mult(&self, bx: &BigNum, by: &BigNum, k: &[u8]) -> (r: Option<(BigNum, BigNum)>) {
        let mut x = BigNum::zero();
        let mut y = BigNum::zero();
        let mut i: usize = 0;
        while i < k.len()
            invariant
                self.wf(),
                i <= k.len(),
                point_is(Some((x, y)), ec_scalar_mult(self.p@, bx@, by@, k@.take(i as int))),
            decreases k.len() - i,
        {
            proof {
                assert(k@.take(i + 1).drop_last() =~= k@.take(i as int));
            }
            match self.mult_byte(bx, by, x, y, k[i]) {
                Some(next) => {
                    x = next.0;
                    y = next.1;
                },
                None => {
                    proof {
                        lemma_scalar_mult_none(self.p@, bx@, by@, k@, i + 1);
                    }
                    return None;
                },
            }
            i = i + 1;
        }
        proof {
            assert(k@.take(k.len() as int) =~= k@);
        }
        Some((x, y))
    }

    fn is_on_curve(&self, x: &BigNum, y: &BigNum) -> (r: bool) {
        // y^2 = x^3 + 19
        let nineteen = BigNum::from_small(19);
        let lhs = self.square(y);
        let cube = self.cube(x);
        let rhs = self.reduce(&big_add(&cube, &nineteen));
        proof {
            let p = self.p@;
            lemma_add_mod_noop(x@ * x@ * x@, 19, p);
            lemma_add_mod_noop((x@ * x@ * x@) % p, 19, p);
            lemma_mod_twice(x@ * x@ * x@, p);
        }
        big_eq(&lhs, &rhs)
    }
}

/// Once the accumulator is undefined it stays so.
pub proof fn lemma_mult_bits_none(p: int, x1: int, y1: int, b: u8, n: nat)
    ensures
        ec_mult_bits(p, x1, y1, None, b, n) is None,
    decreases n,
{
    if n > 0 {
        lemma_mult_bits_none(p, x1, y1, shift_out(b), (n - 1) as nat);
    }
}

/// A scalar multiple that is undefined after `i` bytes is undefined for the
/// whole scalar.
pub proof fn lemma_scalar_mult_none(p: int, x1: int, y1: int, k: Seq<u8>, i: int)
    requires
        0 <= i <= k.len(),
        ec_scalar_mult(p, x1, y1, k.take(i)) is None,
    ensures
        ec_scalar_mult(p, x1, y1, k) is None,
    decreases k.len() - i,
{
    if i < k.len() {
        assert(k.take(i + 1).drop_last() =~= k.take(i));
        lemma_mult_bits_none(p, x1, y1, k[i], 8);
        lemma_scalar_mult_none(p, x1, y1, k, i + 1);
    } else {
        assert(k.take(i) =~= k);
    }
}

/// A zero byte leaves the neutral point where it is.
pub proof fn lemma_zero_byte_keeps_neutral(p: int, x: int, y: int, n: nat)
    ensures
        ec_mult_bits(p, x, y, Some((0int, 0int)), 0u8, n) == Some((0int, 0int)),
    decreases n,
{
    reveal(ec_double);
    if n > 0 {
        assert(shift_out(0u8) == 0u8);
        lemma_zero_byte_keeps_neutral(p, x, y, (n - 1) as nat);
    }
}

/// Zero bytes in front of a scalar change nothing.
pub proof fn lemma_leading_zero(p: int, x: int, y: int, k: Seq<u8>)
    ensures
        ec_scalar_mult(p, x, y, seq![0u8] + k) == ec_scalar_mult(p, x, y, k),
    decreases k.len(),
{
    let long = seq![0u8] + k;
    assert(ec_scalar_mult(p, x, y, long) == ec_mult_bits(
        p,
        x,
        y,
        ec_scalar_mult(p, x, y, long.drop_last()),
        long.last(),
        8,
    ));
    if k.len() == 0 {
        assert(long.drop_last() =~= Seq::<u8>::empty());
        assert(long.last() == 0u8);
        assert(ec_scalar_mult(p, x, y, long.drop_last()) == Some((0int, 0int)));
        lemma_zero_byte_keeps_neutral(p, x, y, 8);
    } else {
        assert(long.drop_last() =~= seq![0u8] + k.drop_last());
        assert(long.last() == k.last());
        lemma_leading_zero(p, x, y, k.drop_last());
    }
}

/// The multiple by one is the point itself.
pub proof fn lemma_scalar_one(p: int, x: int, y: int)
    ensures
        ec_scalar_mult(p, x, y, seq![1u8]) == Some((x, y)),
{
    reveal(ec_double);
    reveal(ec_add);
    let k = seq![1u8];
    assert(k.drop_last() =~= Seq::<u8>::empty());
    assert(k.last() == 1u8);
    let zero = Some((0int, 0int));
    assert(shift_out(1u8) == 2u8);
    assert(shift_out(2u8) == 4u8);
    assert(shift_out(4u8) == 8u8);
    assert(shift_out(8u8) == 16u8);
    assert(shift_out(16u8) == 32u8);
    assert(shift_out(32u8) == 64u8);
    assert(shift_out(64u8) == 128u8);
    assert(shift_out(128u8) == 0u8);
    assert(ec_mult_bit(p, x, y, zero, false) == zero);
    assert(ec_mult_bit(p, x, y, zero, true) == Some((x, y)));
    assert(ec_mult_bits(p, x, y, Some((x, y)), 0u8, 0) == Some((x, y)));
    assert(ec_mult_bits(p, x, y, zero, 128u8, 1) == Some((x, y)));
    assert(ec_mult_bits(p, x, y, zero, 64u8, 2) == Some((x, y)));
    assert(ec_mult_bits(p, x, y, zero, 32u8, 3) == Some((x, y)));
    assert(ec_mult_bits(p, x, y, zero, 16u8, 4) == Some((x, y)));
    assert(ec_mult_bits(p, x, y, zero, 8u8, 5) == Some((x, y)));
    assert(ec_mult_bits(p, x, y, zero, 4u8, 6) == Some((x, y)));
    assert(ec_mult_bits(p, x, y, zero, 2u8, 7) == Some((x, y)));
    assert(ec_mult_bits(p, x, y, zero, 1u8, 8) == Some((x, y)));
    assert(ec_scalar_mult(p, x, y, k.drop_last()) == zero);
    assert(ec_scalar_mult(p, x, y, k) == ec_mult_bits(
        p,
        x,
        y,
        ec_scalar_mult(p, x, y, k.drop_last()),
        k.last(),
        8,
    ));
}

/// The neutral point adds nothing on either side.
pub proof fn lemma_neutral_point(p: int, x: int, y: int)
    ensures
        ec_add(p, 0, 0, x, y) == Some((x, y)),
        ec_add(p, x, y, 0, 0) == Some((x, y)),
{
    reveal(ec_add);
}

/// The sum of two points whose first coordinates differ lies in the field, if
/// it is defined.
pub proof fn lemma_add_reduced(p: int, x1: int, y1: int, x2: int, y2: int)
    requires
        p > 1,
        x1 != x2,
        !(x1 == 0 && y1 == 0),
        !(x2 == 0 && y2 == 0),
    ensures
        ec_add(p, x1, y1, x2, y2) matches Some(r) ==> 0 <= r.0 < p && 0 <= r.1 < p,
{
    reveal(ec_add);
}

} // verus!
