//! Password-authenticated key exchange in the manner of SPAKE2 over SIEC255.
//!
//! The sender publishes `X = [pw] U + [alpha] G`, the receiver answers with
//! `Y = [pw] V + [alpha'] G`, and each side multiplies what is left of the
//! other's point, once the password's share is taken off, by its own secret
//! scalar. Both hash the password, `X`, `Y` and that product into the session
//! key.

use crate::crypto::bignum::{
    big_eq, big_modpow, big_neg, big_to_signed_bytes_be, is_minimal_signed,
    lemma_shortest_signed_be, shortest_signed_be, signed_be, unsigned_be, BigNum,
};
use crate::crypto::curve::{
    ec_add, ec_on_curve, ec_scalar_mult, lemma_modpow_one, siec255_p, EllipticCurve,
    SIEC255Params,
};
use crate::crypto::hash::{sha256, sha256_digest};
use crate::crypto::random::random_bytes;
use vstd::prelude::*;

verus! {

/// Which side of the exchange an instance plays.
#[derive(PartialEq, Eq, Structural, Clone, Copy, Debug)]
pub enum Role {
    Sender,
    Reciever,
}

/// Why an exchange cannot go on.
#[derive(Debug)]
#[allow(inconsistent_fields)]
pub enum Error {
    /// The peer's key has the same role as this instance.
    SameRole,
    /// The given point is not on the curve.
    PointNotOnCurve { x: BigNum, y: BigNum },
    /// The given point lacks a coordinate.
    InvalidPoint { x: Option<BigNum>, y: Option<BigNum> },
    /// The secret scalar is missing.
    InvalidAlpha,
    /// A division on the curve met a number without an inverse.
    NoInverse,
}

/// An `Error` with its numbers as integers.
#[allow(inconsistent_fields)]
pub ghost enum ErrorView {
    SameRole,
    PointNotOnCurve { x: int, y: int },
    InvalidPoint { x: Option<int>, y: Option<int> },
    InvalidAlpha,
    NoInverse,
}

/// The value of an optional number.
pub open spec fn value_of(n: Option<BigNum>) -> Option<int> {
    match n {
        Some(v) => Some(v@),
        None => None,
    }
}

impl View for Error {
    type V = ErrorView;

    open spec fn view(&self) -> ErrorView {
        match *self {
            Error::SameRole => ErrorView::SameRole,
            Error::PointNotOnCurve { x, y } => ErrorView::PointNotOnCurve { x: x@, y: y@ },
            Error::InvalidPoint { x, y } => ErrorView::InvalidPoint {
                x: value_of(x),
                y: value_of(y),
            },
            Error::InvalidAlpha => ErrorView::InvalidAlpha,
            Error::NoInverse => ErrorView::NoInverse,
        }
    }
}

/// What one side publishes: its role, the two constants, and the points `X`
/// and `Y` as far as they are known.
#[derive(Debug)]
pub struct PakePubKey {
    pub role: Role,
    pub u_u: BigNum,
    pub u_v: BigNum,
    pub v_u: BigNum,
    pub v_v: BigNum,
    pub x_u: Option<BigNum>,
    pub x_v: Option<BigNum>,
    pub y_u: Option<BigNum>,
    pub y_v: Option<BigNum>,
}

/// A `PakePubKey` with its numbers as integers.
pub ghost struct PubKeyView {
    pub role: Role,
    pub u_u: int,
    pub u_v: int,
    pub v_u: int,
    pub v_v: int,
    pub x_u: Option<int>,
    pub x_v: Option<int>,
    pub y_u: Option<int>,
    pub y_v: Option<int>,
}

impl View for PakePubKey {
    type V = PubKeyView;

    open spec fn view(&self) -> PubKeyView {
        PubKeyView {
            role: self.role,
            u_u: self.u_u@,
            u_v: self.u_v@,
            v_u: self.v_u@,
            v_v: self.v_v@,
            x_u: value_of(self.x_u),
            x_v: value_of(self.x_v),
            y_u: value_of(self.y_u),
            y_v: value_of(self.y_v),
        }
    }
}

impl PakePubKey {
    /// A copy with the same numbers.
    pub fn duplicate(&self) -> (r: PakePubKey)
        ensures
            r@ == self@,
    {
        PakePubKey {
            role: self.role,
            u_u: self.u_u.duplicate(),
            u_v: self.u_v.duplicate(),
            v_u: self.v_u.duplicate(),
            v_v: self.v_v.duplicate(),
            x_u: duplicate_opt(&self.x_u),
            x_v: duplicate_opt(&self.x_v),
            y_u: duplicate_opt(&self.y_u),
            y_v: duplicate_opt(&self.y_v),
        }
    }
}

/// One side's state of the exchange.
pub struct Pake<C: EllipticCurve> {
    pub pub_pake: PakePubKey,
    pub curve: C,
    pub p: BigNum,
    pub pw: Vec<u8>,
    pub vpw_u: Option<BigNum>,
    pub vpw_v: Option<BigNum>,
    pub upw_u: Option<BigNum>,
    pub upw_v: Option<BigNum>,
    pub a_alpha: Option<[u8; 32]>,
    pub a_alpha_u: Option<BigNum>,
    pub a_alpha_v: Option<BigNum>,
    pub z_u: Option<BigNum>,
    pub z_v: Option<BigNum>,
    /// The session key, once the peer's key was taken in.
    pub k: Option<[u8; 32]>,
}

/// A `Pake` with its numbers as integers and its byte strings as sequences.
pub ghost struct PakeView {
    pub pub_pake: PubKeyView,
    pub p: int,
    pub pw: Seq<u8>,
    pub vpw_u: Option<int>,
    pub vpw_v: Option<int>,
    pub upw_u: Option<int>,
    pub upw_v: Option<int>,
    pub a_alpha: Option<Seq<u8>>,
    pub a_alpha_u: Option<int>,
    pub a_alpha_v: Option<int>,
    pub z_u: Option<int>,
    pub z_v: Option<int>,
    pub k: Option<Seq<u8>>,
}

/// The bytes of an optional array.
pub open spec fn bytes_of(a: Option<[u8; 32]>) -> Option<Seq<u8>> {
    match a {
        Some(v) => Some(v@),
        None => None,
    }
}

impl<C: EllipticCurve> View for Pake<C> {
    type V = PakeView;

    open spec fn view(&self) -> PakeView {
        PakeView {
            pub_pake: self.pub_pake@,
            p: self.p@,
            pw: self.pw@,
            vpw_u: value_of(self.vpw_u),
            vpw_v: value_of(self.vpw_v),
            upw_u: value_of(self.upw_u),
            upw_v: value_of(self.upw_v),
            a_alpha: bytes_of(self.a_alpha),
            a_alpha_u: value_of(self.a_alpha_u),
            a_alpha_v: value_of(self.a_alpha_v),
            z_u: value_of(self.z_u),
            z_v: value_of(self.z_v),
            k: bytes_of(self.k),
        }
    }
}

/// The constant point `U`.
pub open spec fn pake_u() -> (int, int) {
    (
        793136080485469241208656611513609866400481671853int,
        18458907634222644275952014841865282643645472623913459400556233196838128612339int,
    )
}

/// The constant point `V`.
pub open spec fn pake_v() -> (int, int) {
    (
        1086685267857089638167386722555472967068468061489int,
        19593504966619549205903364028255899745298716108914514072669075231742699650911int,
    )
}

/// The password used where none is given.
pub open spec fn default_password() -> Seq<u8> {
    seq![1u8, 2u8, 3u8]
}

/// The bytes of `n` that enter the session key: its shortest two's complement,
/// big-endian, and nothing for zero.
pub open spec fn hashed_bytes(n: int) -> Seq<u8> {
    if n == 0 {
        Seq::<u8>::empty()
    } else {
        shortest_signed_be(n)
    }
}

/// The session key: SHA-256 of the password, `X`, `Y` and `Z`.
pub open spec fn session_key(
    pw: Seq<u8>,
    x: (int, int),
    y: (int, int),
    z: (int, int),
) -> Seq<u8> {
    sha256_digest(
        pw + hashed_bytes(x.0) + hashed_bytes(x.1) + hashed_bytes(y.0) + hashed_bytes(y.1)
            + hashed_bytes(z.0) + hashed_bytes(z.1),
    )
}

/// The public key of a fresh instance: the constants, and no point yet.
pub open spec fn fresh_pub_key(role: Role) -> PubKeyView {
    PubKeyView {
        role,
        u_u: pake_u().0,
        u_v: pake_u().1,
        v_u: pake_v().0,
        v_v: pake_v().1,
        x_u: None,
        x_v: None,
        y_u: None,
        y_v: None,
    }
}

/// The state in which an instance starts. A receiver holds the constants and
/// the password. A sender also holds `[pw] V`, `[pw] U`, its scalar `alpha`,
/// `[alpha] G`, and publishes `X = [pw] U + [alpha] G`. There is no state where
/// one of these points is not defined.
pub open spec fn pake_start(role: Role, pw: Seq<u8>, alpha: Seq<u8>) -> Option<PakeView> {
    let p = siec255_p();
    let fresh = PakeView {
        pub_pake: fresh_pub_key(role),
        p,
        pw,
        vpw_u: None,
        vpw_v: None,
        upw_u: None,
        upw_v: None,
        a_alpha: None,
        a_alpha_u: None,
        a_alpha_v: None,
        z_u: None,
        z_v: None,
        k: None,
    };
    match role {
        Role::Reciever => Some(fresh),
        Role::Sender => match (
            ec_scalar_mult(p, pake_v().0, pake_v().1, pw),
            ec_scalar_mult(p, pake_u().0, pake_u().1, pw),
            ec_scalar_mult(p, 5, 12, alpha),
        ) {
            (Some(vpw), Some(upw), Some(ag)) => match ec_add(p, upw.0, upw.1, ag.0, ag.1) {
                Some(x) => Some(
                    PakeView {
                        pub_pake: PubKeyView {
                            x_u: Some(x.0),
                            x_v: Some(x.1),
                            ..fresh_pub_key(role)
                        },
                        vpw_u: Some(vpw.0),
                        vpw_v: Some(vpw.1),
                        upw_u: Some(upw.0),
                        upw_v: Some(upw.1),
                        a_alpha: Some(alpha),
                        a_alpha_u: Some(ag.0),
                        a_alpha_v: Some(ag.1),
                        ..fresh
                    },
                ),
                None => None,
            },
            _ => None,
        },
    }
}

/// What the sender makes of the receiver's key: `Y` must be whole and on the
/// curve, `Z = [alpha] (Y - [pw] V)`, and the session key follows.
pub open spec fn sender_update(s: PakeView, key: PubKeyView) -> Result<PakeView, ErrorView> {
    match (key.y_u, key.y_v) {
        (Some(yu), Some(yv)) => if !ec_on_curve(s.p, yu, yv) {
            Err(ErrorView::PointNotOnCurve { x: yu, y: yv })
        } else {
            match (s.vpw_u, s.vpw_v) {
                (Some(vu), Some(vv)) => match ec_add(s.p, yu, yv, vu, (-vv) % s.p) {
                    None => Err(ErrorView::NoInverse),
                    Some(z0) => match s.a_alpha {
                        None => Err(ErrorView::InvalidAlpha),
                        Some(alpha) => match ec_scalar_mult(s.p, z0.0, z0.1, alpha) {
                            None => Err(ErrorView::NoInverse),
                            Some(z) => match (s.pub_pake.x_u, s.pub_pake.x_v) {
                                (Some(xu), Some(xv)) => Ok(
                                    PakeView {
                                        z_u: Some(z.0),
                                        z_v: Some(z.1),
                                        k: Some(session_key(s.pw, (xu, xv), (yu, yv), z)),
                                        ..s
                                    },
                                ),
                                _ => Err(
                                    ErrorView::InvalidPoint {
                                        x: s.pub_pake.x_u,
                                        y: s.pub_pake.x_v,
                                    },
                                ),
                            },
                        },
                    },
                },
                _ => Err(ErrorView::InvalidPoint { x: s.vpw_u, y: s.vpw_v }),
            }
        },
        _ => Err(ErrorView::InvalidPoint { x: key.y_u, y: key.y_v }),
    }
}

/// What the receiver makes of the sender's key: `X` must be whole and on the
/// curve; with the scalar `alpha` it publishes `Y = [pw] V + [alpha] G`, takes
/// `Z = [alpha] (X - [pw] U)`, and the session key follows.
pub open spec fn receiver_update(s: PakeView, key: PubKeyView, alpha: Seq<u8>) -> Result<
    PakeView,
    ErrorView,
> {
    match (key.x_u, key.x_v) {
        (Some(xu), Some(xv)) => if !ec_on_curve(s.p, xu, xv) {
            Err(ErrorView::PointNotOnCurve { x: xu, y: xv })
        } else {
            match (
                ec_scalar_mult(s.p, s.pub_pake.v_u, s.pub_pake.v_v, s.pw),
                ec_scalar_mult(s.p, s.pub_pake.u_u, s.pub_pake.u_v, s.pw),
                ec_scalar_mult(s.p, 5, 12, alpha),
            ) {
                (Some(vpw), Some(upw), Some(ag)) => match (
                    ec_add(s.p, vpw.0, vpw.1, ag.0, ag.1),
                    ec_add(s.p, xu, xv, upw.0, (-upw.1) % s.p),
                ) {
                    (Some(y), Some(z0)) => match ec_scalar_mult(s.p, z0.0, z0.1, alpha) {
                        Some(z) => Ok(
                            PakeView {
                                pub_pake: PubKeyView {
                                    x_u: Some(xu),
                                    x_v: Some(xv),
                                    y_u: Some(y.0),
                                    y_v: Some(y.1),
                                    ..s.pub_pake
                                },
                                vpw_u: Some(vpw.0),
                                vpw_v: Some(vpw.1),
                                upw_u: Some(upw.0),
                                upw_v: Some(upw.1),
                                a_alpha: Some(alpha),
                                a_alpha_u: Some(ag.0),
                                a_alpha_v: Some(ag.1),
                                z_u: Some(z.0),
                                z_v: Some(z.1),
                                k: Some(session_key(s.pw, (xu, xv), y, z)),
                                ..s
                            },
                        ),
                        None => Err(ErrorView::NoInverse),
                    },
                    _ => Err(ErrorView::NoInverse),
                },
                _ => Err(ErrorView::NoInverse),
            }
        },
        _ => Err(ErrorView::InvalidPoint { x: key.x_u, y: key.x_v }),
    }
}

/// The state after the peer's key was taken in, or the reason why it was
/// refused. `alpha` is the scalar that a receiver draws; a sender has its own.
pub open spec fn pake_update(s: PakeView, key: PubKeyView, alpha: Seq<u8>) -> Result<
    PakeView,
    ErrorView,
> {
    if s.pub_pake.role == key.role {
        Err(ErrorView::SameRole)
    } else {
        match s.pub_pake.role {
            Role::Sender => sender_update(s, key),
            Role::Reciever => receiver_update(s, key, alpha),
        }
    }
}

/// The first coordinate of the constant point `U`.
#[verifier::rlimit(40)]
fn constant_u_u() -> (r: BigNum)
    ensures
        r@ == pake_u().0,
{
    let bytes: Vec<u8> = vec![
        0x00, 0x8a, 0xed, 0x73, 0xaf, 0x1c, 0x28, 0xff, 0xe0, 0xe0, 0x75, 0xb7, 0x24, 0xa9, 0xb5, 0xc2,
        0x18, 0xa8, 0x6b, 0xfa, 0xad,
    ];
    proof {
        reveal_with_fuel(unsigned_be, 22);
        assert(unsigned_be(bytes@) == pake_u().0);
    }
    BigNum::from_signed_bytes_be(bytes)
}

/// The second coordinate of the constant point `U`.
#[verifier::rlimit(40)]
fn constant_u_v() -> (r: BigNum)
    ensures
        r@ == pake_u().1,
{
    let bytes: Vec<u8> = vec![
        0x28, 0xcf, 0x5f, 0x19, 0x51, 0x7b, 0xdd, 0xdb, 0xaa, 0xb4, 0x94, 0xfc, 0x68, 0xb2, 0x05, 0xbc,
        0x54, 0x07, 0xdf, 0x28, 0x1c, 0x4d, 0xe9, 0xe2, 0x72, 0x27, 0x3c, 0x3e, 0x25, 0x96, 0x73, 0xf3,
    ];
    proof {
        reveal_with_fuel(unsigned_be, 33);
        assert(unsigned_be(bytes@) == pake_u().1);
    }
    BigNum::from_signed_bytes_be(bytes)
}

/// The first coordinate of the constant point `V`.
#[verifier::rlimit(40)]
fn constant_v_u() -> (r: BigNum)
    ensures
        r@ == pake_v().0,
{
    let bytes: Vec<u8> = vec![
        0x00, 0xbe, 0x58, 0xa7, 0x17, 0xb8, 0x33, 0x50, 0x79, 0x82, 0x21, 0xbe, 0x18, 0xb2, 0xc1, 0x42,
        0xf2, 0x59, 0x8b, 0x25, 0x31,
    ];
    proof {
        reveal_with_fuel(unsigned_be, 22);
        assert(unsigned_be(bytes@) == pake_v().0);
    }
    BigNum::from_signed_bytes_be(bytes)
}

/// The second coordinate of the constant point `V`.
#[verifier::rlimit(40)]
fn constant_v_v() -> (r: BigNum)
    ensures
        r@ == pake_v().1,
{
    let bytes: Vec<u8> = vec![
        0x2b, 0x51, 0x87, 0xe3, 0x5b, 0x6a, 0xc1, 0x68, 0x38, 0x3b, 0x5e, 0xc9, 0x92, 0xd2, 0x94, 0x26,
        0x20, 0x7f, 0x6f, 0x52, 0x2f, 0x52, 0x44, 0x42, 0x1c, 0x16, 0xd6, 0x7e, 0xb2, 0xc6, 0x3f, 0x5f,
    ];
    proof {
        reveal_with_fuel(unsigned_be, 33);
        assert(unsigned_be(bytes@) == pake_v().1);
    }
    BigNum::from_signed_bytes_be(bytes)
}

/// Both coordinates of a point, or the error that names what is there.
pub fn is_valid_point(x: &Option<BigNum>, y: &Option<BigNum>) -> (r: Result<
    (BigNum, BigNum),
    Error,
>)
    ensures
        match r {
            Ok(pt) => value_of(*x) == Some(pt.0@) && value_of(*y) == Some(pt.1@),
            Err(e) => (*x is None || *y is None) && e@ == (ErrorView::InvalidPoint {
                x: value_of(*x),
                y: value_of(*y),
            }),
        },
{
    match (x, y) {
        (Some(a), Some(b)) => Ok((a.duplicate(), b.duplicate())),
        _ => Err(Error::InvalidPoint { x: duplicate_opt(x), y: duplicate_opt(y) }),
    }
}

/// A copy of an optional number.
fn duplicate_opt(n: &Option<BigNum>) -> (r: Option<BigNum>)
    ensures
        value_of(r) == value_of(*n),
{
    match n {
        Some(v) => Some(v.duplicate()),
        None => None,
    }
}

/// The bytes of `num` that enter the session key: nothing for zero, and
/// otherwise the shortest two's complement encoding, big-endian.
pub fn bigint_to_signed_bytes_be(num: &BigNum) -> (r: Vec<u8>)
    ensures
        r@ == hashed_bytes(num@),
        signed_be(r@) == num@,
        num@ == 0 <==> r@.len() == 0,
        num@ != 0 ==> is_minimal_signed(r@),
{
    if big_eq(num, &BigNum::zero()) {
        Vec::new()
    } else {
        let bytes = big_to_signed_bytes_be(num);
        proof {
            lemma_shortest_signed_be(num@, bytes@);
        }
        bytes
    }
}

/// Appends the hashed bytes of `num` to `buf`.
fn absorb(buf: &mut Vec<u8>, num: &BigNum)
    ensures
        final(buf)@ == old(buf)@ + hashed_bytes(num@),
{
    let bytes = bigint_to_signed_bytes_be(num);
    let ghost before = buf@;
    let mut i: usize = 0;
    while i < bytes.len()
        invariant
            i <= bytes.len(),
            buf@ == before + bytes@.take(i as int),
        decreases bytes.len() - i,
    {
        buf.push(bytes[i]);
        proof {
            assert(bytes@.take(i + 1) =~= bytes@.take(i as int).push(bytes@[i as int]));
            assert(buf@ =~= before + bytes@.take(i + 1));
        }
        i = i + 1;
    }
    proof {
        assert(bytes@.take(bytes.len() as int) =~= bytes@);
    }
}

/// The session key of the password and the three points.
fn derive_key(
    pw: &Vec<u8>,
    x_u: &BigNum,
    x_v: &BigNum,
    y_u: &BigNum,
    y_v: &BigNum,
    z_u: &BigNum,
    z_v: &BigNum,
) -> (r: [u8; 32])
    ensures
        r@ == session_key(pw@, (x_u@, x_v@), (y_u@, y_v@), (z_u@, z_v@)),
{
    let mut buf: Vec<u8> = pw.clone();
    absorb(&mut buf, x_u);
    absorb(&mut buf, x_v);
    absorb(&mut buf, y_u);
    absorb(&mut buf, y_v);
    absorb(&mut buf, z_u);
    absorb(&mut buf, z_v);
    sha256(buf.as_slice())
}

impl Pake<SIEC255Params> {
    /// Whether the instance computes on SIEC255.
    pub open spec fn wf(&self) -> bool {
        &&& self.curve.wf()
        &&& self.p@ == siec255_p()
    }

    /// A fresh instance with the secret scalar `alpha`. The password is `key`,
    /// or the bytes 1, 2, 3 where none is given.
    pub fn with_alpha(role: Role, key: Option<&[u8]>, alpha: [u8; 32]) -> (r: Result<Self, Error>)
        ensures
            match r {
                Ok(pake) => pake.wf() && pake_start(role, password_of(key), alpha@) == Some(
                    pake@,
                ),
                Err(e) => e@ == ErrorView::NoInverse && pake_start(
                    role,
                    password_of(key),
                    alpha@,
                ) is None,
            },
    {
        let pw: Vec<u8> = match key {
            Some(k) => vstd::slice::slice_to_vec(k),
            None => vec![1u8, 2u8, 3u8],
        };
        let u_u = constant_u_u();
        let u_v = constant_u_v();
        let v_u = constant_v_u();
        let v_v = constant_v_v();
        let curve = SIEC255Params::default();
        let p = curve.p.duplicate();
        match role {
            Role::Reciever => Ok(
                Pake {
                    pub_pake: PakePubKey {
                        role,
                        u_u,
                        u_v,
                        v_u,
                        v_v,
                        x_u: None,
                        x_v: None,
                        y_u: None,
                        y_v: None,
                    },
                    curve,
                    p,
                    pw,
                    vpw_u: None,
                    vpw_v: None,
                    upw_u: None,
                    upw_v: None,
                    a_alpha: None,
                    a_alpha_u: None,
                    a_alpha_v: None,
                    z_u: None,
                    z_v: None,
                    k: None,
                },
            ),
            Role::Sender => {
                let (v_u_pw, v_v_pw) = match curve.scalar_mult(&v_u, &v_v, pw.as_slice()) {
                    Some(pt) => pt,
                    None => { return Err(Error::NoInverse); },
                };
                let (u_u_pw, u_v_pw) = match curve.scalar_mult(&u_u, &u_v, pw.as_slice()) {
                    Some(pt) => pt,
                    None => { return Err(Error::NoInverse); },
                };
                let (a_alpha_u, a_alpha_v) = match curve.scalar_base_mult(alpha.as_slice()) {
                    Some(pt) => pt,
                    None => { return Err(Error::NoInverse); },
                };
                // "X"
                let (x_u, x_v) = match curve.add(&u_u_pw, &u_v_pw, &a_alpha_u, &a_alpha_v) {
                    Some(pt) => pt,
                    None => { return Err(Error::NoInverse); },
                };
                Ok(
                    Pake {
                        pub_pake: PakePubKey {
                            role,
                            u_u,
                            u_v,
                            v_u,
                            v_v,
                            x_u: Some(x_u),
                            x_v: Some(x_v),
                            y_u: None,
                            y_v: None,
                        },
                        curve,
                        p,
                        pw,
                        vpw_u: Some(v_u_pw),
                        vpw_v: Some(v_v_pw),
                        upw_u: Some(u_u_pw),
                        upw_v: Some(u_v_pw),
                        a_alpha: Some(alpha),
                        a_alpha_u: Some(a_alpha_u),
                        a_alpha_v: Some(a_alpha_v),
                        z_u: None,
                        z_v: None,
                        k: None,
                    },
                )
            },
        }
    }

    /// A fresh instance whose secret scalar is drawn at random.
    pub fn new(role: Role, key: Option<&[u8]>) -> (r: Result<Self, Error>)
        ensures
            exists|alpha: Seq<u8>|
                alpha.len() == 32 && match r {
                    Ok(pake) => pake.wf() && #[trigger] pake_start(role, password_of(key), alpha)
                        == Some(pake@),
                    Err(e) => e@ == ErrorView::NoInverse && pake_start(
                        role,
                        password_of(key),
                        alpha,
                    ) is None,
                },
    {
        let alpha = random_bytes::<32>();
        Pake::with_alpha(role, key, alpha)
    }

    /// Takes in the peer's public key, with `alpha` as the scalar where this
    /// side is the receiver. On success the session key is set. On an error
    /// the state is left as it was.
    pub fn update_with_alpha(&mut self, key: PakePubKey, alpha: [u8; 32]) -> (r: Result<
        (),
        Error,
    >)
        requires
            old(self).wf(),
        ensures
            final(self).wf(),
            match r {
                Ok(_) => pake_update(old(self)@, key@, alpha@) == Ok::<PakeView, ErrorView>(
                    final(self)@,
                ),
                Err(e) => pake_update(old(self)@, key@, alpha@) == Err::<PakeView, ErrorView>(e@)
                    && final(self)@ == old(self)@,
            },
    {
        if self.pub_pake.role == key.role {
            return Err(Error::SameRole);
        }
        let one = BigNum::from_small(1);
        match self.pub_pake.role {
            Role::Sender => {
                let (y_u, y_v) = match is_valid_point(&key.y_u, &key.y_v) {
                    Ok(pt) => pt,
                    Err(e) => { return Err(e); },
                };
                if !self.curve.is_on_curve(&y_u, &y_v) {
                    return Err(Error::PointNotOnCurve { x: y_u, y: y_v });
                }
                let (vpw_u, vpw_v) = match is_valid_point(&self.vpw_u, &self.vpw_v) {
                    Ok(pt) => pt,
                    Err(e) => { return Err(e); },
                };
                let minus_vpw_v = big_modpow(&big_neg(&vpw_v), &one, &self.p);
                proof {
                    lemma_modpow_one(-vpw_v@, self.p@);
                }
                let (z0_u, z0_v) = match self.curve.add(&y_u, &y_v, &vpw_u, &minus_vpw_v) {
                    Some(pt) => pt,
                    None => { return Err(Error::NoInverse); },
                };
                let (z_u, z_v) = match self.a_alpha {
                    Some(a_alpha) => match self.curve.scalar_mult(&z0_u, &z0_v, a_alpha.as_slice()) {
                        Some(pt) => pt,
                        None => { return Err(Error::NoInverse); },
                    },
                    None => { return Err(Error::InvalidAlpha); },
                };
                let (x_u, x_v) = match is_valid_point(&self.pub_pake.x_u, &self.pub_pake.x_v) {
                    Ok(pt) => pt,
                    Err(e) => { return Err(e); },
                };
                let k = derive_key(&self.pw, &x_u, &x_v, &y_u, &y_v, &z_u, &z_v);
                self.z_u = Some(z_u);
                self.z_v = Some(z_v);
                self.k = Some(k);
                Ok(())
            },
            Role::Reciever => {
                let (x_u, x_v) = match is_valid_point(&key.x_u, &key.x_v) {
                    Ok(pt) => pt,
                    Err(e) => { return Err(e); },
                };
                // Make sure X is on the curve
                if !self.curve.is_on_curve(&x_u, &x_v) {
                    return Err(Error::PointNotOnCurve { x: x_u, y: x_v });
                }
                // Compute Y
                let (v_u_pw, v_v_pw) = match self.curve.scalar_mult(
                    &self.pub_pake.v_u,
                    &self.pub_pake.v_v,
                    self.pw.as_slice(),
                ) {
                    Some(pt) => pt,
                    None => { return Err(Error::NoInverse); },
                };
                let (u_u_pw, u_v_pw) = match self.curve.scalar_mult(
                    &self.pub_pake.u_u,
                    &self.pub_pake.u_v,
                    self.pw.as_slice(),
                ) {
                    Some(pt) => pt,
                    None => { return Err(Error::NoInverse); },
                };
                let (a_alpha_u, a_alpha_v) = match self.curve.scalar_base_mult(alpha.as_slice()) {
                    Some(pt) => pt,
                    None => { return Err(Error::NoInverse); },
                };
                let (y_u, y_v) = match self.curve.add(&v_u_pw, &v_v_pw, &a_alpha_u, &a_alpha_v) {
                    Some(pt) => pt,
                    None => { return Err(Error::NoInverse); },
                };
                let minus_u_v_pw = big_modpow(&big_neg(&u_v_pw), &one, &self.p);
                proof {
                    lemma_modpow_one(-u_v_pw@, self.p@);
                }
                let (z0_u, z0_v) = match self.curve.add(&x_u, &x_v, &u_u_pw, &minus_u_v_pw) {
                    Some(pt) => pt,
                    None => { return Err(Error::NoInverse); },
                };
                let (z_u, z_v) = match self.curve.scalar_mult(&z0_u, &z0_v, alpha.as_slice()) {
                    Some(pt) => pt,
                    None => { return Err(Error::NoInverse); },
                };
                let k = derive_key(&self.pw, &x_u, &x_v, &y_u, &y_v, &z_u, &z_v);
                self.pub_pake.x_u = Some(x_u);
                self.pub_pake.x_v = Some(x_v);
                // Y point
                self.pub_pake.y_u = Some(y_u);
                self.pub_pake.y_v = Some(y_v);
                self.vpw_u = Some(v_u_pw);
                self.vpw_v = Some(v_v_pw);
                self.upw_u = Some(u_u_pw);
                self.upw_v = Some(u_v_pw);
                self.a_alpha = Some(alpha);
                self.a_alpha_u = Some(a_alpha_u);
                self.a_alpha_v = Some(a_alpha_v);
                self.z_u = Some(z_u);
                self.z_v = Some(z_v);
                self.k = Some(k);
                Ok(())
            },
        }
    }

    /// Takes in the peer's public key. A receiver draws its secret scalar at
    /// random.
    pub fn update(&mut self, key: PakePubKey) -> (r: Result<(), Error>)
        requires
            old(self).wf(),
        ensures
            final(self).wf(),
            exists|alpha: Seq<u8>|
                alpha.len() == 32 && match r {
                    Ok(_) => #[trigger] pake_update(old(self)@, key@, alpha) == Ok::<
                        PakeView,
                        ErrorView,
                    >(final(self)@),
                    Err(e) => pake_update(old(self)@, key@, alpha) == Err::<PakeView, ErrorView>(
                        e@,
                    ) && final(self)@ == old(self)@,
                },
    {
        let alpha: [u8; 32] = match self.pub_pake.role {
            Role::Reciever => random_bytes::<32>(),
            Role::Sender => [0u8; 32],
        };
        self.update_with_alpha(key, alpha)
    }
}

/// The password that an instance is made with.
pub open spec fn password_of(key: Option<&[u8]>) -> Seq<u8> {
    match key {
        Some(k) => k@,
        None => default_password(),
    }
}

/// A sender and a receiver that start from the same password, exchange their
/// public keys and arrive at the same point `Z` hold the same session key.
pub proof fn lemma_same_product_same_key(pw: Seq<u8>, alpha: Seq<u8>, beta: Seq<u8>)
    requires
        pake_start(Role::Sender, pw, alpha) is Some,
        pake_start(Role::Reciever, pw, beta) is Some,
        pake_update(
            pake_start(Role::Reciever, pw, beta)->Some_0,
            pake_start(Role::Sender, pw, alpha)->Some_0.pub_pake,
            beta,
        ) is Ok,
        pake_update(
            pake_start(Role::Sender, pw, alpha)->Some_0,
            pake_update(
                pake_start(Role::Reciever, pw, beta)->Some_0,
                pake_start(Role::Sender, pw, alpha)->Some_0.pub_pake,
                beta,
            )->Ok_0.pub_pake,
            alpha,
        ) is Ok,
        ({
            let s0 = pake_start(Role::Sender, pw, alpha)->Some_0;
            let r0 = pake_start(Role::Reciever, pw, beta)->Some_0;
            let r1 = pake_update(r0, s0.pub_pake, beta)->Ok_0;
            let s1 = pake_update(s0, r1.pub_pake, alpha)->Ok_0;
            s1.z_u == r1.z_u && s1.z_v == r1.z_v
        }),
    ensures
        ({
            let s0 = pake_start(Role::Sender, pw, alpha)->Some_0;
            let r0 = pake_start(Role::Reciever, pw, beta)->Some_0;
            let r1 = pake_update(r0, s0.pub_pake, beta)->Ok_0;
            let s1 = pake_update(s0, r1.pub_pake, alpha)->Ok_0;
            s1.k is Some && s1.k == r1.k
        }),
{
}

/// Taking in the peer's key leaves the role, the constants, the password and
/// the field as they are, and ends with the point `Z` and a session key; and a
/// sender's outcome does not depend on the scalar handed in.
pub proof fn lemma_update_keeps_identity(s: PakeView, key: PubKeyView, alpha: Seq<u8>, other: Seq<u8>)
    ensures
        pake_update(s, key, alpha) matches Ok(t) ==> {
            &&& t.pub_pake.role == s.pub_pake.role
            &&& t.pub_pake.u_u == s.pub_pake.u_u
            &&& t.pub_pake.u_v == s.pub_pake.u_v
            &&& t.pub_pake.v_u == s.pub_pake.v_u
            &&& t.pub_pake.v_v == s.pub_pake.v_v
            &&& t.pw == s.pw
            &&& t.p == s.p
            &&& t.z_u is Some
            &&& t.z_v is Some
            &&& t.k is Some
        },
        s.pub_pake.role == Role::Sender ==> pake_update(s, key, alpha) == pake_update(
            s,
            key,
            other,
        ),
{
}

} // verus!
